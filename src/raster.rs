//! The framebuffer and the triangle scan converter.
//!
//! Vertices arrive in screen space as fixed-point integers: `SUBPIXEL` units
//! per pixel, origin at pixel `(0, 0)`. Pixel `(px, py)` is sampled at the
//! point `(px * SUBPIXEL, py * SUBPIXEL)` and stored at slot `px + width * py`.
//! Depth is a fixed-point value in `0 ..= DEPTH_LIMIT`; smaller is closer.
use vstd::prelude::*;
use vstd::arithmetic::div_mod::*;
use vstd::arithmetic::mul::*;
use crate::color::{Color, Pixel};

verus! {

/// Fixed-point units per pixel.
pub const SUBPIXEL: i64 = 256;

/// Largest magnitude of a screen coordinate.
pub const COORD_LIMIT: i64 = 1073741824;

/// Largest depth value; also the depth a fresh buffer holds.
pub const DEPTH_LIMIT: i64 = 16777216;

/// Largest width or height of a buffer: the last pixel's sample coordinate,
/// `(MAX_DIM - 1) * SUBPIXEL`, must stay within `COORD_LIMIT`.
pub const MAX_DIM: u32 = 4194304;

/// A projected vertex: screen position in fixed point and its depth.
#[derive(Clone, Copy, Debug, PartialEq, Eq, Structural)]
pub struct ScreenVertex {
    pub x: i64,
    pub y: i64,
    pub z: i64,
}

/// Why a buffer could not be made.
#[derive(Clone, Copy, Debug, PartialEq, Eq, Structural)]
pub enum BufferError {
    /// Width or height is zero or above `MAX_DIM`, or the slot count does
    /// not fit in `usize`.
    InvalidSize,
}

/// Whether a vertex lies in the range the scan converter accepts.
pub open spec fn in_range(v: ScreenVertex) -> bool {
    -COORD_LIMIT <= v.x <= COORD_LIMIT && -COORD_LIMIT <= v.y <= COORD_LIMIT && 0 <= v.z
        <= DEPTH_LIMIT
}

/// The edge function of the directed edge `a -> b` at point `(px, py)`.
pub open spec fn edge(a: ScreenVertex, b: ScreenVertex, px: int, py: int) -> int {
    (a.x - b.x) * (py - a.y) - (a.y - b.y) * (px - a.x)
}

/// Top-left classification of the directed edge `a -> b`.
pub open spec fn is_top_left(a: ScreenVertex, b: ScreenVertex) -> bool {
    let dx = a.x - b.x;
    let dy = a.y - b.y;
    dy < 0 || (dy == 0 && dx > 0)
}

/// Whether `(px, py)` is on the inner side of edge `a -> b`: strictly inside,
/// or on the edge itself when the edge is top-left.
pub open spec fn edge_covers(a: ScreenVertex, b: ScreenVertex, px: int, py: int) -> bool {
    let e = edge(a, b, px, py);
    e > 0 || (e == 0 && is_top_left(a, b))
}

/// Whether the triangle `a, b, c` covers the point `(px, py)`.
pub open spec fn covers(a: ScreenVertex, b: ScreenVertex, c: ScreenVertex, px: int, py: int) -> bool {
    edge_covers(a, b, px, py) && edge_covers(b, c, px, py) && edge_covers(c, a, px, py)
}

/// Sum of the three edge functions: twice the triangle's area.
pub open spec fn weight_sum(a: ScreenVertex, b: ScreenVertex, c: ScreenVertex, px: int, py: int) -> int {
    edge(a, b, px, py) + edge(b, c, px, py) + edge(c, a, px, py)
}

/// Barycentric blend of the values `va, vb, vc` given at `a, b, c`, rounded down.
pub open spec fn blend(
    a: ScreenVertex,
    b: ScreenVertex,
    c: ScreenVertex,
    px: int,
    py: int,
    va: int,
    vb: int,
    vc: int,
) -> int {
    (edge(b, c, px, py) * va + edge(c, a, px, py) * vb + edge(a, b, px, py) * vc) / weight_sum(
        a,
        b,
        c,
        px,
        py,
    )
}

/// Barycentric blend of the values `va, vb, vc` given at `a, b, c`, rounded
/// to the nearest integer (halves up).
pub open spec fn blend_nearest(
    a: ScreenVertex,
    b: ScreenVertex,
    c: ScreenVertex,
    px: int,
    py: int,
    va: int,
    vb: int,
    vc: int,
) -> int {
    (2 * (edge(b, c, px, py) * va + edge(c, a, px, py) * vb + edge(a, b, px, py) * vc) + weight_sum(
        a,
        b,
        c,
        px,
        py,
    )) / (2 * weight_sum(a, b, c, px, py))
}

/// Interpolated depth at `(px, py)`.
pub open spec fn depth_at(a: ScreenVertex, b: ScreenVertex, c: ScreenVertex, px: int, py: int) -> int {
    blend(a, b, c, px, py, a.z as int, b.z as int, c.z as int)
}

/// Interpolated color at `(px, py)`, one channel at a time, each rounded to nearest.
pub open spec fn shade_matches(
    a: ScreenVertex,
    b: ScreenVertex,
    c: ScreenVertex,
    ca: Color,
    cb: Color,
    cc: Color,
    px: int,
    py: int,
    out: Color,
) -> bool {
    &&& out.r as int == blend_nearest(a, b, c, px, py, ca.r as int, cb.r as int, cc.r as int)
    &&& out.g as int == blend_nearest(a, b, c, px, py, ca.g as int, cb.g as int, cc.g as int)
    &&& out.b as int == blend_nearest(a, b, c, px, py, ca.b as int, cb.b as int, cc.b as int)
}

/// Fixed-point coordinate of the sample point of pixel index `p`.
pub open spec fn coord(p: int) -> int {
    p * SUBPIXEL
}

/// Sample point of slot `i` in a buffer `width` pixels wide.
pub open spec fn sample_x(width: int, i: int) -> int {
    coord(i % width)
}

/// Sample point of slot `i` in a buffer `width` pixels wide.
pub open spec fn sample_y(width: int, i: int) -> int {
    coord(i / width)
}

/// Whether a triangle writes slot `i` of a buffer `width` pixels wide whose
/// depth there is `old_depth`: all vertices in range, the sample point covered,
/// and the interpolated depth closer than the stored one.
pub open spec fn writes(
    a: ScreenVertex,
    b: ScreenVertex,
    c: ScreenVertex,
    width: int,
    i: int,
    old_depth: int,
) -> bool {
    &&& in_range(a) && in_range(b) && in_range(c)
    &&& covers(a, b, c, sample_x(width, i), sample_y(width, i))
    &&& depth_at(a, b, c, sample_x(width, i), sample_y(width, i)) < old_depth
}

/// Smallest of three integers.
pub open spec fn min3(a: int, b: int, c: int) -> int {
    if a <= b && a <= c {
        a
    } else if b <= c {
        b
    } else {
        c
    }
}

/// Largest of three integers.
pub open spec fn max3(a: int, b: int, c: int) -> int {
    if a >= b && a >= c {
        a
    } else if b >= c {
        b
    } else {
        c
    }
}

/// What a triangle leaves in one slot: the blended color and the
/// interpolated depth where it writes, the old contents elsewhere.
pub open spec fn slot_result(
    a: ScreenVertex,
    b: ScreenVertex,
    c: ScreenVertex,
    ca: Color,
    cb: Color,
    cc: Color,
    width: int,
    i: int,
    old_pixel: Pixel,
    old_depth: i64,
    new_pixel: Pixel,
    new_depth: i64,
) -> bool {
    if writes(a, b, c, width, i, old_depth as int) {
        &&& shade_matches(a, b, c, ca, cb, cc, sample_x(width, i), sample_y(width, i), new_pixel.color)
        &&& new_depth == depth_at(a, b, c, sample_x(width, i), sample_y(width, i))
    } else {
        new_pixel == old_pixel && new_depth == old_depth
    }
}

/// Clamps `input` into `min ..= max`.
pub fn clamp(input: i64, min: i64, max: i64) -> (r: i64)
    ensures
        r == if input < min {
            min
        } else if input > max {
            max
        } else {
            input
        },
{
    if input < min {
        min
    } else if input > max {
        max
    } else {
        input
    }
}

/// Edge function of `a -> b` at `(px, py)`, computed exactly.
fn edge_value(a: ScreenVertex, b: ScreenVertex, px: i64, py: i64) -> (e: i128)
    requires
        in_range(a),
        in_range(b),
        -COORD_LIMIT <= px <= COORD_LIMIT,
        -COORD_LIMIT <= py <= COORD_LIMIT,
    ensures
        e == edge(a, b, px as int, py as int),
        -0x8000_0000_0000_0000 <= e <= 0x8000_0000_0000_0000,
{
    let dx = a.x as i128 - b.x as i128;
    let dy = a.y as i128 - b.y as i128;
    let ex = px as i128 - a.x as i128;
    let ey = py as i128 - a.y as i128;
    assert(-0x4000_0000_0000_0000 <= dx * ey <= 0x4000_0000_0000_0000) by (nonlinear_arith)
        requires
            -0x8000_0000 <= dx <= 0x8000_0000,
            -0x8000_0000 <= ey <= 0x8000_0000,
    ;
    assert(-0x4000_0000_0000_0000 <= dy * ex <= 0x4000_0000_0000_0000) by (nonlinear_arith)
        requires
            -0x8000_0000 <= dy <= 0x8000_0000,
            -0x8000_0000 <= ex <= 0x8000_0000,
    ;
    dx * ey - dy * ex
}

/// Top-left classification of `a -> b`.
fn top_left(a: ScreenVertex, b: ScreenVertex) -> (r: bool)
    requires
        in_range(a),
        in_range(b),
    ensures
        r == is_top_left(a, b),
{
    let dx = a.x - b.x;
    let dy = a.y - b.y;
    dy < 0 || (dy == 0 && dx > 0)
}

/// `(wa * va + wb * vb + wc * vc) / (wa + wb + wc)`, rounded down.
fn blend_value(wa: i128, wb: i128, wc: i128, va: i64, vb: i64, vc: i64) -> (r: i64)
    requires
        0 <= wa <= 0x8000_0000_0000_0000,
        0 <= wb <= 0x8000_0000_0000_0000,
        0 <= wc <= 0x8000_0000_0000_0000,
        wa + wb + wc > 0,
        0 <= va <= DEPTH_LIMIT,
        0 <= vb <= DEPTH_LIMIT,
        0 <= vc <= DEPTH_LIMIT,
    ensures
        r == (wa * va + wb * vb + wc * vc) / (wa + wb + wc),
        0 <= r <= DEPTH_LIMIT,
{
    assert(0 <= wa * va <= 0x8000_0000_0000_0000 * DEPTH_LIMIT) by (nonlinear_arith)
        requires 0 <= wa <= 0x8000_0000_0000_0000, 0 <= va <= DEPTH_LIMIT;
    assert(0 <= wb * vb <= 0x8000_0000_0000_0000 * DEPTH_LIMIT) by (nonlinear_arith)
        requires 0 <= wb <= 0x8000_0000_0000_0000, 0 <= vb <= DEPTH_LIMIT;
    assert(0 <= wc * vc <= 0x8000_0000_0000_0000 * DEPTH_LIMIT) by (nonlinear_arith)
        requires 0 <= wc <= 0x8000_0000_0000_0000, 0 <= vc <= DEPTH_LIMIT;
    let n = (wa * va as i128 + wb * vb as i128 + wc * vc as i128) as u128;
    let w = (wa + wb + wc) as u128;
    proof {
        let hi = max3(va as int, vb as int, vc as int);
        lemma_average_bounds(wa as int, wb as int, wc as int, va as int, vb as int, vc as int, 0, hi);
        lemma_div_is_ordered(n as int, w * hi, w as int);
        lemma_mul_is_commutative(w as int, hi);
        lemma_div_by_multiple(hi, w as int);
        lemma_div_pos_is_pos(n as int, w as int);
    }
    (n / w) as i64
}

/// `(2 * (wa * va + wb * vb + wc * vc) + w) / (2 * w)` with `w = wa + wb + wc`:
/// the weighted average of three channels rounded to nearest.
fn blend_channel(wa: i128, wb: i128, wc: i128, va: u8, vb: u8, vc: u8) -> (r: u8)
    requires
        0 <= wa <= 0x8000_0000_0000_0000,
        0 <= wb <= 0x8000_0000_0000_0000,
        0 <= wc <= 0x8000_0000_0000_0000,
        wa + wb + wc > 0,
    ensures
        r == (2 * (wa * va + wb * vb + wc * vc) + (wa + wb + wc)) / (2 * (wa + wb + wc)),
{
    assert(0 <= wa * va <= 0x8000_0000_0000_0000 * 255) by (nonlinear_arith)
        requires 0 <= wa <= 0x8000_0000_0000_0000, 0 <= va <= 255;
    assert(0 <= wb * vb <= 0x8000_0000_0000_0000 * 255) by (nonlinear_arith)
        requires 0 <= wb <= 0x8000_0000_0000_0000, 0 <= vb <= 255;
    assert(0 <= wc * vc <= 0x8000_0000_0000_0000 * 255) by (nonlinear_arith)
        requires 0 <= wc <= 0x8000_0000_0000_0000, 0 <= vc <= 255;
    let n = (wa * va as i128 + wb * vb as i128 + wc * vc as i128) as u128;
    let w = (wa + wb + wc) as u128;
    let q = (2 * n + w) / (2 * w);
    proof {
        lemma_average_bounds(wa as int, wb as int, wc as int, va as int, vb as int, vc as int, 0, 255);
        lemma_rounded_below(n as int, w as int, 255);
    }
    q as u8
}

/// Rounding `n / w` to nearest stays at most `hi` when `n <= w * hi`.
proof fn lemma_rounded_below(n: int, w: int, hi: int)
    requires
        w > 0,
        0 <= n <= w * hi,
        hi >= 0,
    ensures
        0 <= (2 * n + w) / (2 * w) <= hi,
{
    let d = 2 * w;
    let x = 2 * n + w;
    lemma_fundamental_div_mod(x, d);
    lemma_mod_pos_bound(x, d);
    lemma_div_pos_is_pos(x, d);
    let q = x / d;
    assert(q <= hi) by (nonlinear_arith)
        requires x == d * q + x % d, 0 <= x % d, x <= 2 * (w * hi) + w, d == 2 * w, w > 0,
            x % d < d;
}

/// First and last pixel index in `0 .. size` whose sample coordinate may lie
/// in `lo ..= hi`.
fn pixel_span(lo: i64, hi: i64, size: u32) -> (r: (u32, u32))
    requires
        lo <= hi,
        -COORD_LIMIT <= lo,
        hi <= COORD_LIMIT,
        1 <= size <= MAX_DIM,
    ensures
        r.0 <= r.1 < size,
        forall|p: int| 0 <= p < size && lo <= #[trigger] coord(p) <= hi ==> r.0 <= p <= r.1,
{
    let first: i64 = if lo <= 0 { 0 } else { clamp(lo / SUBPIXEL, 0, size as i64 - 1) };
    let last: i64 = if hi < 0 { 0 } else { clamp(hi / SUBPIXEL, 0, size as i64 - 1) };
    proof {
        if lo > 0 {
            lemma_div_is_ordered(lo as int, hi as int, SUBPIXEL as int);
            lemma_fundamental_div_mod(lo as int, SUBPIXEL as int);
            lemma_mod_pos_bound(lo as int, SUBPIXEL as int);
        }
        if hi >= 0 {
            lemma_fundamental_div_mod(hi as int, SUBPIXEL as int);
            lemma_mod_pos_bound(hi as int, SUBPIXEL as int);
        }
        assert forall|p: int| 0 <= p < size && lo <= #[trigger] coord(p) <= hi implies first <= p <= last by {
            if lo > 0 {
                let q = lo / SUBPIXEL;
                assert(q <= p) by (nonlinear_arith)
                    requires lo == SUBPIXEL * q + lo % SUBPIXEL, 0 <= lo % SUBPIXEL < SUBPIXEL,
                        lo <= p * SUBPIXEL;
            }
            let q = hi / SUBPIXEL;
            assert(p <= q) by (nonlinear_arith)
                requires hi == SUBPIXEL * q + hi % SUBPIXEL, 0 <= hi % SUBPIXEL < SUBPIXEL,
                    p * SUBPIXEL <= hi;
        }
    }
    (first as u32, last as u32)
}

/// Smallest of three.
fn min_of(a: i64, b: i64, c: i64) -> (r: i64)
    ensures
        r == min3(a as int, b as int, c as int),
{
    if a <= b && a <= c {
        a
    } else if b <= c {
        b
    } else {
        c
    }
}

/// Largest of three.
fn max_of(a: i64, b: i64, c: i64) -> (r: i64)
    ensures
        r == max3(a as int, b as int, c as int),
{
    if a >= b && a >= c {
        a
    } else if b >= c {
        b
    } else {
        c
    }
}

/// A color buffer and a depth buffer of `width * height` slots each.
pub struct Buffer {
    pub width: u32,
    pub height: u32,
    pub data: Vec<Pixel>,
    pub depth: Vec<i64>,
}

/// Whether `width` and `height` are acceptable buffer dimensions: positive,
/// within the fixed-point coordinate range, and with a slot count that fits
/// in `usize`.
pub open spec fn valid_size(width: int, height: int) -> bool {
    1 <= width <= MAX_DIM && 1 <= height <= MAX_DIM && width * height <= usize::MAX
}

impl Buffer {
    /// Dimensions in range, and both buffers hold exactly `width * height` slots.
    pub open spec fn wf(&self) -> bool {
        &&& valid_size(self.width as int, self.height as int)
        &&& self.data@.len() == self.width * self.height
        &&& self.depth@.len() == self.width * self.height
    }

    /// Number of slots.
    pub open spec fn slots(&self) -> int {
        self.width * self.height
    }

    /// A buffer of the given size, all black, every depth at `DEPTH_LIMIT`.
    pub fn new(width: u32, height: u32) -> (r: Result<Buffer, BufferError>)
        ensures
            r is Err <==> !valid_size(width as int, height as int),
            r is Err ==> r == Err::<Buffer, BufferError>(BufferError::InvalidSize),
            r matches Ok(b) ==> {
                &&& b.wf()
                &&& b.width == width
                &&& b.height == height
                &&& forall|i: int| 0 <= i < b.slots() ==> (#[trigger] b.data@[i]).color == (Color { r: 0, g: 0, b: 0 })
                &&& forall|i: int| 0 <= i < b.slots() ==> #[trigger] b.depth@[i] == DEPTH_LIMIT
            },
    {
        if width == 0 || height == 0 || width > MAX_DIM || height > MAX_DIM {
            return Err(BufferError::InvalidSize);
        }
        assert(width * height <= 0x1000_0000_0000) by (nonlinear_arith)
            requires width <= MAX_DIM, height <= MAX_DIM;
        let n64 = width as u64 * height as u64;
        if n64 > usize::MAX as u64 {
            return Err(BufferError::InvalidSize);
        }
        let n = n64 as usize;
        let mut data: Vec<Pixel> = Vec::new();
        let mut depth: Vec<i64> = Vec::new();
        let mut i: usize = 0;
        while i < n
            invariant
                i <= n,
                data@.len() == i,
                depth@.len() == i,
                forall|j: int| 0 <= j < i ==> (#[trigger] data@[j]).color == (Color { r: 0, g: 0, b: 0 }),
                forall|j: int| 0 <= j < i ==> #[trigger] depth@[j] == DEPTH_LIMIT,
            decreases n - i,
        {
            data.push(Pixel::new(0, 0, 0));
            depth.push(DEPTH_LIMIT);
            i = i + 1;
        }
        Ok(Buffer { width, height, data, depth })
    }

    /// Sets every pixel to `c`.
    pub fn clear_color(&mut self, c: Color)
        requires
            old(self).wf(),
        ensures
            final(self).wf(),
            final(self).width == old(self).width,
            final(self).height == old(self).height,
            final(self).depth@ == old(self).depth@,
            forall|i: int| 0 <= i < final(self).slots() ==> (#[trigger] final(self).data@[i]).color == c,
    {
        let n = self.data.len();
        let mut i: usize = 0;
        while i < n
            invariant
                self.wf(),
                n == self.data@.len(),
                i <= n,
                self.width == old(self).width,
                self.height == old(self).height,
                self.depth@ == old(self).depth@,
                forall|j: int| 0 <= j < i ==> (#[trigger] self.data@[j]).color == c,
            decreases n - i,
        {
            self.data.set(i, Pixel::new(c.r, c.g, c.b));
            i = i + 1;
        }
    }

    /// Sets every depth to `value`.
    pub fn clear_depth(&mut self, value: i64)
        requires
            old(self).wf(),
        ensures
            final(self).wf(),
            final(self).width == old(self).width,
            final(self).height == old(self).height,
            final(self).data@ == old(self).data@,
            forall|i: int| 0 <= i < final(self).slots() ==> #[trigger] final(self).depth@[i] == value,
    {
        let n = self.depth.len();
        let mut i: usize = 0;
        while i < n
            invariant
                self.wf(),
                n == self.depth@.len(),
                i <= n,
                self.width == old(self).width,
                self.height == old(self).height,
                self.data@ == old(self).data@,
                forall|j: int| 0 <= j < i ==> #[trigger] self.depth@[j] == value,
            decreases n - i,
        {
            self.depth.set(i, value);
            i = i + 1;
        }
    }

    /// Scan-converts one slot: writes the fragment of `a, b, c` at sample
    /// point `(px, py)` into slot `idx` when it is covered and closer.
    fn shade_slot(
        &mut self,
        idx: usize,
        px: i64,
        py: i64,
        a: ScreenVertex,
        b: ScreenVertex,
        c: ScreenVertex,
        ca: Color,
        cb: Color,
        cc: Color,
    )
        requires
            old(self).wf(),
            idx < old(self).slots(),
            in_range(a) && in_range(b) && in_range(c),
            0 <= px <= COORD_LIMIT,
            0 <= py <= COORD_LIMIT,
        ensures
            final(self).wf(),
            final(self).width == old(self).width,
            final(self).height == old(self).height,
            forall|j: int| 0 <= j < final(self).slots() && j != idx ==> final(self).data@[j] == old(self).data@[j]
                && final(self).depth@[j] == old(self).depth@[j],
            if covers(a, b, c, px as int, py as int) && depth_at(a, b, c, px as int, py as int) < old(self).depth@[idx as int] {
                &&& shade_matches(a, b, c, ca, cb, cc, px as int, py as int, final(self).data@[idx as int].color)
                &&& final(self).depth@[idx as int] == depth_at(a, b, c, px as int, py as int)
            } else {
                final(self).data@[idx as int] == old(self).data@[idx as int]
                    && final(self).depth@[idx as int] == old(self).depth@[idx as int]
            },
    {
        let wa = edge_value(b, c, px, py);
        let wb = edge_value(c, a, px, py);
        let wc = edge_value(a, b, px, py);
        let inside = (wc > 0 || (wc == 0 && top_left(a, b))) && (wa > 0 || (wa == 0 && top_left(b, c)))
            && (wb > 0 || (wb == 0 && top_left(c, a)));
        if !inside {
            return;
        }
        proof {
            lemma_covered_weights(a, b, c, px as int, py as int);
        }
        let d = blend_value(wa, wb, wc, a.z, b.z, c.z);
        if d < self.depth[idx] {
            let r = blend_channel(wa, wb, wc, ca.r, cb.r, cc.r);
            let g = blend_channel(wa, wb, wc, ca.g, cb.g, cc.g);
            let bl = blend_channel(wa, wb, wc, ca.b, cb.b, cc.b);
            self.data.set(idx, Pixel::new(r, g, bl));
            self.depth.set(idx, d);
        }
    }

    /// Draws the triangle `a, b, c` with colors `ca, cb, cc` at its vertices.
    ///
    /// Every slot whose sample point the triangle covers under the top-left
    /// rule, and whose stored depth is greater than the interpolated depth
    /// there, gets the barycentric blend of the three colors and that depth;
    /// every other slot is left as it was. A triangle with a vertex out of
    /// range draws nothing, and so does one of zero area.
    pub fn draw_triangle(
        &mut self,
        a: ScreenVertex,
        b: ScreenVertex,
        c: ScreenVertex,
        ca: Color,
        cb: Color,
        cc: Color,
    )
        requires
            old(self).wf(),
        ensures
            final(self).wf(),
            final(self).width == old(self).width,
            final(self).height == old(self).height,
            forall|i: int| 0 <= i < old(self).slots() ==> slot_result(a, b, c, ca, cb, cc, old(self).width as int, i,
                old(self).data@[i], old(self).depth@[i], #[trigger] final(self).data@[i], final(self).depth@[i]),
            forall|i: int| 0 <= i < old(self).slots() ==> #[trigger] final(self).depth@[i] <= old(self).depth@[i],
    {
        let ghost d0 = self.data@;
        let ghost z0 = self.depth@;
        let ghost width = self.width as int;
        if !(-COORD_LIMIT <= a.x && a.x <= COORD_LIMIT && -COORD_LIMIT <= a.y && a.y <= COORD_LIMIT && 0 <= a.z
            && a.z <= DEPTH_LIMIT && -COORD_LIMIT <= b.x && b.x <= COORD_LIMIT && -COORD_LIMIT <= b.y && b.y
            <= COORD_LIMIT && 0 <= b.z && b.z <= DEPTH_LIMIT && -COORD_LIMIT <= c.x && c.x <= COORD_LIMIT
            && -COORD_LIMIT <= c.y && c.y <= COORD_LIMIT && 0 <= c.z && c.z <= DEPTH_LIMIT) {
            return;
        }
        let (x0, x1) = pixel_span(min_of(a.x, b.x, c.x), max_of(a.x, b.x, c.x), self.width);
        let (y0, y1) = pixel_span(min_of(a.y, b.y, c.y), max_of(a.y, b.y, c.y), self.height);
        proof {
            lemma_slot_in_bounds(0, 0, self.width as int, self.height as int);
        }
        let mut y: u32 = y0;
        while y <= y1
            invariant
                self.wf(),
                self.width == old(self).width,
                self.height == old(self).height,
                in_range(a) && in_range(b) && in_range(c),
                d0 == old(self).data@,
                z0 == old(self).depth@,
                width == self.width,
                self.width * self.height <= usize::MAX,
                x0 <= x1 < self.width,
                y0 <= y <= y1 + 1,
                y1 < self.height,
                forall|i: int| 0 <= i < self.slots() ==> if y0 <= i / width < y && x0 <= i % width <= x1 {
                    slot_result(a, b, c, ca, cb, cc, width, i, d0[i], z0[i], #[trigger] self.data@[i], self.depth@[i])
                } else {
                    self.data@[i] == d0[i] && self.depth@[i] == z0[i]
                },
            decreases y1 + 1 - y,
        {
            let mut x: u32 = x0;
            assert forall|i: int| 0 <= i < self.slots() implies if (y0 <= i / width < y && x0 <= i % width <= x1)
                || (i / width == y && x0 <= i % width < x) {
                slot_result(a, b, c, ca, cb, cc, width, i, d0[i], z0[i], #[trigger] self.data@[i], self.depth@[i])
            } else {
                self.data@[i] == d0[i] && self.depth@[i] == z0[i]
            } by {
                assert(!(i / width == y && x0 <= i % width < x));
            }
            while x <= x1
                invariant
                    self.wf(),
                    self.width == old(self).width,
                    self.height == old(self).height,
                    in_range(a) && in_range(b) && in_range(c),
                    d0 == old(self).data@,
                    z0 == old(self).depth@,
                    width == self.width,
                    self.width * self.height <= usize::MAX,
                    x0 <= x <= x1 + 1,
                    x1 < self.width,
                    y0 <= y <= y1,
                    y1 < self.height,
                    forall|i: int| 0 <= i < self.slots() ==> if (y0 <= i / width < y && x0 <= i % width <= x1)
                        || (i / width == y && x0 <= i % width < x) {
                        slot_result(a, b, c, ca, cb, cc, width, i, d0[i], z0[i], #[trigger] self.data@[i], self.depth@[i])
                    } else {
                        self.data@[i] == d0[i] && self.depth@[i] == z0[i]
                    },
                decreases x1 + 1 - x,
            {
                proof {
                    lemma_slot_in_bounds(x as int, y as int, width, self.height as int);
                }
                let idx = x as usize + self.width as usize * y as usize;
                let ghost before_data = self.data@;
                let ghost before_depth = self.depth@;
                proof {
                    lemma_mul_is_commutative(width, y as int);
                    lemma_fundamental_div_mod_converse(idx as int, width, y as int, x as int);
                    assert(0 <= idx < self.slots());
                    assert(idx as int / width == y as int);
                    assert(idx as int % width == x as int);
                    assert(self.data@[idx as int] == d0[idx as int]);
                    assert(self.depth@[idx as int] == z0[idx as int]);
                    assert(x * SUBPIXEL <= COORD_LIMIT && y * SUBPIXEL <= COORD_LIMIT) by (nonlinear_arith)
                        requires x < MAX_DIM, y < MAX_DIM;
                }
                self.shade_slot(idx, x as i64 * SUBPIXEL, y as i64 * SUBPIXEL, a, b, c, ca, cb, cc);
                proof {
                    assert forall|i: int| 0 <= i < self.slots() implies if (y0 <= i / width < y && x0 <= i % width
                        <= x1) || (i / width == y && x0 <= i % width < x + 1) {
                        slot_result(a, b, c, ca, cb, cc, width, i, d0[i], z0[i], #[trigger] self.data@[i], self.depth@[i])
                    } else {
                        self.data@[i] == d0[i] && self.depth@[i] == z0[i]
                    } by {
                        if i == idx {
                            assert(sample_x(width, i) == x * SUBPIXEL);
                            assert(sample_y(width, i) == y * SUBPIXEL);
                        } else {
                            assert(self.data@[i] == before_data[i] && self.depth@[i] == before_depth[i]);
                            if i / width == y && i % width == x {
                                lemma_fundamental_div_mod(i, width);
                                assert(i == x + width * y);
                            }
                        }
                    }
                }
                x = x + 1;
            }
            y = y + 1;
        }
        proof {
            assert forall|i: int| 0 <= i < old(self).slots() implies slot_result(a, b, c, ca, cb, cc, width, i,
                d0[i], z0[i], #[trigger] self.data@[i], self.depth@[i]) by {
                let col = i % width;
                let row = i / width;
                if !(y0 <= row <= y1 && x0 <= col <= x1) && covers(a, b, c, sample_x(width, i), sample_y(width, i)) {
                    lemma_covered_in_box(a, b, c, sample_x(width, i), sample_y(width, i));
                    lemma_mod_pos_bound(i, width);
                    lemma_div_pos_is_pos(i, width);
                    lemma_fundamental_div_mod(i, width);
                    assert(row < self.height) by (nonlinear_arith)
                        requires i == width * row + col, 0 <= col, i < width * self.height, width > 0;
                }
            }
            assert forall|i: int| 0 <= i < old(self).slots() implies #[trigger] self.depth@[i] <= old(self).depth@[i] by {
                assert(slot_result(a, b, c, ca, cb, cc, width, i, d0[i], z0[i], self.data@[i], self.depth@[i]));
            }
        }
    }

    /// The pixel at column `x`, row `y`.
    pub fn pixel(&self, x: u32, y: u32) -> (p: Pixel)
        requires
            self.wf(),
            x < self.width,
            y < self.height,
        ensures
            p == self.data@[x + self.width * y],
    {
        proof { lemma_slot_in_bounds(x as int, y as int, self.width as int, self.height as int); }
        self.data[x as usize + self.width as usize * y as usize]
    }

    /// The stored depth at column `x`, row `y`.
    pub fn depth_value(&self, x: u32, y: u32) -> (d: i64)
        requires
            self.wf(),
            x < self.width,
            y < self.height,
        ensures
            d == self.depth@[x + self.width * y],
    {
        proof { lemma_slot_in_bounds(x as int, y as int, self.width as int, self.height as int); }
        self.depth[x as usize + self.width as usize * y as usize]
    }

    /// The color buffer as bytes, `r, g, b` for each pixel in slot order.
    pub fn data_as_u8_vec(&self) -> (v: Vec<u8>)
        requires
            self.wf(),
        ensures
            v@.len() == 3 * self.slots(),
            forall|i: int| 0 <= i < self.slots() ==> {
                &&& v@[3 * i] == (#[trigger] self.data@[i]).color.r
                &&& v@[3 * i + 1] == self.data@[i].color.g
                &&& v@[3 * i + 2] == self.data@[i].color.b
            },
    {
        let n = self.data.len();
        let mut v: Vec<u8> = Vec::new();
        let mut i: usize = 0;
        while i < n
            invariant
                self.wf(),
                n == self.data@.len(),
                i <= n,
                v@.len() == 3 * i,
                forall|j: int| 0 <= j < i ==> {
                    &&& v@[3 * j] == (#[trigger] self.data@[j]).color.r
                    &&& v@[3 * j + 1] == self.data@[j].color.g
                    &&& v@[3 * j + 2] == self.data@[j].color.b
                },
            decreases n - i,
        {
            let c = self.data[i].color;
            v.push(c.r);
            v.push(c.g);
            v.push(c.b);
            i = i + 1;
        }
        v
    }

    /// The color buffer with one packed `0x00RRGGBB` word per pixel, in slot order.
    pub fn data_as_u32_vec(&self) -> (v: Vec<u32>)
        requires
            self.wf(),
        ensures
            v@.len() == self.slots(),
            forall|i: int| 0 <= i < self.slots() ==> #[trigger] v@[i] == packed(self.data@[i].color),
    {
        let n = self.data.len();
        let mut v: Vec<u32> = Vec::new();
        let mut i: usize = 0;
        while i < n
            invariant
                self.wf(),
                n == self.data@.len(),
                i <= n,
                v@.len() == i,
                forall|j: int| 0 <= j < i ==> #[trigger] v@[j] == packed(self.data@[j].color),
            decreases n - i,
        {
            let c = self.data[i].color;
            v.push(c.r as u32 * 65536 + c.g as u32 * 256 + c.b as u32);
            i = i + 1;
        }
        v
    }
}

/// A color packed as `0x00RRGGBB`.
pub open spec fn packed(c: Color) -> u32 {
    (c.r * 65536 + c.g * 256 + c.b) as u32
}

/// The slot of column `x`, row `y` lies in a `width * height` buffer.
proof fn lemma_slot_in_bounds(x: int, y: int, width: int, height: int)
    requires
        0 <= x < width,
        0 <= y < height,
        valid_size(width, height),
    ensures
        0 <= x + width * y < width * height,
        width * height <= usize::MAX,
{
    assert(0 <= x + width * y < width * height) by (nonlinear_arith)
        requires 0 <= x < width, 0 <= y < height;
}

/// A covered point has non-negative edge functions with a positive sum.
proof fn lemma_covered_weights(a: ScreenVertex, b: ScreenVertex, c: ScreenVertex, px: int, py: int)
    requires
        covers(a, b, c, px, py),
    ensures
        edge(a, b, px, py) >= 0,
        edge(b, c, px, py) >= 0,
        edge(c, a, px, py) >= 0,
        weight_sum(a, b, c, px, py) > 0,
{
}

/// Relative to the point, an edge function is a cross product.
proof fn lemma_edge_cross(a: ScreenVertex, b: ScreenVertex, px: int, py: int)
    ensures
        edge(a, b, px, py) == (b.x - px) * (a.y - py) - (a.x - px) * (b.y - py),
{
    let (ua, va, ub, vb) = (a.x - px, a.y - py, b.x - px, b.y - py);
    assert((ua - ub) * (0 - va) - (va - vb) * (0 - ua) == ub * va - ua * vb) by (nonlinear_arith);
}

/// The weighted offsets of the three vertices from the point cancel out.
proof fn lemma_cross_cancel(ua: int, va: int, ub: int, vb: int, uc: int, vc: int)
    ensures
        (uc * vb - ub * vc) * ua + (ua * vc - uc * va) * ub + (ub * va - ua * vb) * uc == 0,
        (uc * vb - ub * vc) * va + (ua * vc - uc * va) * vb + (ub * va - ua * vb) * vc == 0,
{
    assert((uc * vb - ub * vc) * ua + (ua * vc - uc * va) * ub + (ub * va - ua * vb) * uc == 0)
        by (nonlinear_arith);
    assert((uc * vb - ub * vc) * va + (ua * vc - uc * va) * vb + (ub * va - ua * vb) * vc == 0)
        by (nonlinear_arith);
}

/// The edge functions are barycentric weights: they reproduce the point.
proof fn lemma_barycentric(a: ScreenVertex, b: ScreenVertex, c: ScreenVertex, px: int, py: int)
    ensures
        weight_sum(a, b, c, px, py) * px == edge(b, c, px, py) * a.x + edge(c, a, px, py) * b.x
            + edge(a, b, px, py) * c.x,
        weight_sum(a, b, c, px, py) * py == edge(b, c, px, py) * a.y + edge(c, a, px, py) * b.y
            + edge(a, b, px, py) * c.y,
{
    lemma_edge_cross(a, b, px, py);
    lemma_edge_cross(b, c, px, py);
    lemma_edge_cross(c, a, px, py);
    let (ua, va, ub, vb, uc, vc) = (a.x - px, a.y - py, b.x - px, b.y - py, c.x - px, c.y - py);
    lemma_cross_cancel(ua, va, ub, vb, uc, vc);
    let (wa, wb, wc) = (edge(b, c, px, py), edge(c, a, px, py), edge(a, b, px, py));
    assert(wa * ua + wb * ub + wc * uc == (wa * a.x + wb * b.x + wc * c.x) - (wa + wb + wc) * px) by (nonlinear_arith)
        requires ua == a.x - px, ub == b.x - px, uc == c.x - px;
    assert(wa * va + wb * vb + wc * vc == (wa * a.y + wb * b.y + wc * c.y) - (wa + wb + wc) * py) by (nonlinear_arith)
        requires va == a.y - py, vb == b.y - py, vc == c.y - py;
}

/// A weighted average with non-negative weights stays between the bounds of
/// the averaged values.
proof fn lemma_average_bounds(wa: int, wb: int, wc: int, va: int, vb: int, vc: int, lo: int, hi: int)
    requires
        wa >= 0,
        wb >= 0,
        wc >= 0,
        wa + wb + wc > 0,
        lo <= va <= hi,
        lo <= vb <= hi,
        lo <= vc <= hi,
    ensures
        (wa + wb + wc) * lo <= wa * va + wb * vb + wc * vc <= (wa + wb + wc) * hi,
{
    lemma_mul_inequality(lo, va, wa);
    lemma_mul_inequality(lo, vb, wb);
    lemma_mul_inequality(lo, vc, wc);
    lemma_mul_inequality(va, hi, wa);
    lemma_mul_inequality(vb, hi, wb);
    lemma_mul_inequality(vc, hi, wc);
    lemma_mul_is_commutative(lo, wa);
    lemma_mul_is_commutative(lo, wb);
    lemma_mul_is_commutative(lo, wc);
    lemma_mul_is_commutative(hi, wa);
    lemma_mul_is_commutative(hi, wb);
    lemma_mul_is_commutative(hi, wc);
    lemma_mul_is_distributive_add_other_way(lo, wa, wb);
    lemma_mul_is_distributive_add_other_way(lo, wa + wb, wc);
    lemma_mul_is_distributive_add_other_way(hi, wa, wb);
    lemma_mul_is_distributive_add_other_way(hi, wa + wb, wc);
}

/// If `w * p` lies between `w * lo` and `w * hi` for a positive `w`, so does `p`.
proof fn lemma_cancel_positive(w: int, p: int, lo: int, hi: int)
    requires
        w > 0,
        w * lo <= w * p <= w * hi,
    ensures
        lo <= p <= hi,
{
    if p < lo {
        lemma_mul_strict_inequality(p, lo, w);
        lemma_mul_is_commutative(p, w);
        lemma_mul_is_commutative(lo, w);
    }
    if p > hi {
        lemma_mul_strict_inequality(hi, p, w);
        lemma_mul_is_commutative(p, w);
        lemma_mul_is_commutative(hi, w);
    }
}

/// A covered point lies within the triangle's bounding box.
pub proof fn lemma_covered_in_box(a: ScreenVertex, b: ScreenVertex, c: ScreenVertex, px: int, py: int)
    requires
        covers(a, b, c, px, py),
    ensures
        min3(a.x as int, b.x as int, c.x as int) <= px <= max3(a.x as int, b.x as int, c.x as int),
        min3(a.y as int, b.y as int, c.y as int) <= py <= max3(a.y as int, b.y as int, c.y as int),
{
    lemma_covered_weights(a, b, c, px, py);
    lemma_barycentric(a, b, c, px, py);
    let (wa, wb, wc) = (edge(b, c, px, py), edge(c, a, px, py), edge(a, b, px, py));
    let w = weight_sum(a, b, c, px, py);
    lemma_average_bounds(wa, wb, wc, a.x as int, b.x as int, c.x as int, min3(a.x as int, b.x as int, c.x as int), max3(a.x as int, b.x as int, c.x as int));
    lemma_cancel_positive(w, px, min3(a.x as int, b.x as int, c.x as int), max3(a.x as int, b.x as int, c.x as int));
    lemma_average_bounds(wa, wb, wc, a.y as int, b.y as int, c.y as int, min3(a.y as int, b.y as int, c.y as int), max3(a.y as int, b.y as int, c.y as int));
    lemma_cancel_positive(w, py, min3(a.y as int, b.y as int, c.y as int), max3(a.y as int, b.y as int, c.y as int));
}

/// Reversing an edge negates its edge function.
proof fn lemma_edge_reversed(a: ScreenVertex, b: ScreenVertex, px: int, py: int)
    ensures
        edge(b, a, px, py) == -edge(a, b, px, py),
{
    lemma_edge_cross(a, b, px, py);
    lemma_edge_cross(b, a, px, py);
}

/// For an edge of positive length, every point is on the inner side of
/// exactly one of its two directions: of the edge `a -> b` or of `b -> a`.
pub proof fn lemma_shared_edge_exclusive(a: ScreenVertex, b: ScreenVertex, px: int, py: int)
    requires
        a.x != b.x || a.y != b.y,
    ensures
        edge_covers(a, b, px, py) != edge_covers(b, a, px, py),
{
    lemma_edge_reversed(a, b, px, py);
}

/// Two triangles `a, b, c` and `b, a, d` that share the edge `a - b` never
/// both cover a point, and every point on the inner side of the four outer
/// edges `b -> c`, `c -> a`, `a -> d`, `d -> b` is covered by one of them:
/// along the shared edge no pixel is drawn twice and none is missed.
pub proof fn lemma_shared_edge_tiling(
    a: ScreenVertex,
    b: ScreenVertex,
    c: ScreenVertex,
    d: ScreenVertex,
    px: int,
    py: int,
)
    requires
        a.x != b.x || a.y != b.y,
    ensures
        !(covers(a, b, c, px, py) && covers(b, a, d, px, py)),
        edge_covers(b, c, px, py) && edge_covers(c, a, px, py) && edge_covers(a, d, px, py)
            && edge_covers(d, b, px, py) ==> covers(a, b, c, px, py) || covers(b, a, d, px, py),
{
    lemma_shared_edge_exclusive(a, b, px, py);
}

/// The two triangles `a, b, c` and `b, a, d` that split the axis-aligned
/// rectangle with corners `a = (x0, y0)`, `c = (x1, y0)`, `b = (x1, y1)`,
/// `d = (x0, y1)` along its diagonal cover exactly the half-open rectangle
/// `x0 <= px < x1`, `y0 <= py < y1`, and never cover the same point twice.
pub proof fn lemma_rectangle_tiling(
    a: ScreenVertex,
    b: ScreenVertex,
    c: ScreenVertex,
    d: ScreenVertex,
    px: int,
    py: int,
)
    requires
        a.x < b.x,
        a.y < b.y,
        c.x == b.x && c.y == a.y,
        d.x == a.x && d.y == b.y,
    ensures
        !(covers(a, b, c, px, py) && covers(b, a, d, px, py)),
        covers(a, b, c, px, py) || covers(b, a, d, px, py) <==> (a.x <= px < b.x && a.y <= py < b.y),
{
    lemma_shared_edge_exclusive(a, b, px, py);
    let (x, y, u, v) = (b.x - a.x, b.y - a.y, px - a.x, py - a.y);
    assert(edge(a, b, px, py) == y * u - x * v) by (nonlinear_arith)
        requires x == b.x - a.x, y == b.y - a.y, u == px - a.x, v == py - a.y;
    assert(edge(b, c, px, py) == y * (x - u)) by (nonlinear_arith)
        requires x == b.x - a.x, y == b.y - a.y, u == px - a.x, c.x == b.x, c.y == a.y;
    assert(edge(c, a, px, py) == x * v) by (nonlinear_arith)
        requires x == b.x - a.x, v == py - a.y, c.x == b.x, c.y == a.y;
    assert(edge(a, d, px, py) == y * u) by (nonlinear_arith)
        requires y == b.y - a.y, u == px - a.x, d.x == a.x, d.y == b.y;
    assert(edge(d, b, px, py) == x * (y - v)) by (nonlinear_arith)
        requires x == b.x - a.x, y == b.y - a.y, v == py - a.y, d.x == a.x, d.y == b.y;
    assert(y * (x - u) > 0 <==> u < x) by (nonlinear_arith)
        requires y > 0;
    assert(x * v >= 0 <==> v >= 0) by (nonlinear_arith)
        requires x > 0;
    assert(y * u >= 0 <==> u >= 0) by (nonlinear_arith)
        requires y > 0;
    assert(x * (y - v) > 0 <==> v < y) by (nonlinear_arith)
        requires x > 0;
    assert(y * u >= x * v && v >= 0 && u < x ==> 0 <= u && v < y) by (nonlinear_arith)
        requires x > 0, y > 0;
    assert(y * u < x * v && u >= 0 && v < y ==> 0 <= v && u < x) by (nonlinear_arith)
        requires x > 0, y > 0;
}

/// Where two triangles both cover a slot and the first is nearer there than
/// the second, which is nearer than what the slot held, drawing them in
/// either order leaves the nearer one's color and depth in the slot.
pub proof fn lemma_nearer_wins(
    na: ScreenVertex,
    nb: ScreenVertex,
    nc: ScreenVertex,
    ncolor: (Color, Color, Color),
    fa: ScreenVertex,
    fb: ScreenVertex,
    fc: ScreenVertex,
    fcolor: (Color, Color, Color),
    width: int,
    i: int,
    p0: Pixel,
    d0: i64,
)
    requires
        in_range(na) && in_range(nb) && in_range(nc),
        in_range(fa) && in_range(fb) && in_range(fc),
        covers(na, nb, nc, sample_x(width, i), sample_y(width, i)),
        covers(fa, fb, fc, sample_x(width, i), sample_y(width, i)),
        depth_at(na, nb, nc, sample_x(width, i), sample_y(width, i)) < depth_at(
            fa,
            fb,
            fc,
            sample_x(width, i),
            sample_y(width, i),
        ) < d0,
    ensures
        forall|p1: Pixel, d1: i64, p2: Pixel, d2: i64|
            slot_result(fa, fb, fc, fcolor.0, fcolor.1, fcolor.2, width, i, p0, d0, p1, d1)
                && slot_result(na, nb, nc, ncolor.0, ncolor.1, ncolor.2, width, i, p1, d1, p2, d2) ==> {
                &&& shade_matches(na, nb, nc, ncolor.0, ncolor.1, ncolor.2, sample_x(width, i), sample_y(width, i), p2.color)
                &&& d2 == depth_at(na, nb, nc, sample_x(width, i), sample_y(width, i))
            },
        forall|p1: Pixel, d1: i64, p2: Pixel, d2: i64|
            slot_result(na, nb, nc, ncolor.0, ncolor.1, ncolor.2, width, i, p0, d0, p1, d1)
                && slot_result(fa, fb, fc, fcolor.0, fcolor.1, fcolor.2, width, i, p1, d1, p2, d2) ==> {
                &&& shade_matches(na, nb, nc, ncolor.0, ncolor.1, ncolor.2, sample_x(width, i), sample_y(width, i), p2.color)
                &&& d2 == depth_at(na, nb, nc, sample_x(width, i), sample_y(width, i))
            },
{
}

} // verus!
