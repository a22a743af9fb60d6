use ruster::color::{Color, Pixel};
use ruster::raster::{clamp, Buffer, BufferError, ScreenVertex, DEPTH_LIMIT, MAX_DIM, SUBPIXEL};
use ruster::mesh::{Cube, Mesh};

const RED: Color = Color { r: 255, g: 0, b: 0 };
const GREEN: Color = Color { r: 0, g: 255, b: 0 };
const BLUE: Color = Color { r: 0, g: 0, b: 255 };
const BLACK: Color = Color { r: 0, g: 0, b: 0 };

fn at(x: i64, y: i64, z: i64) -> ScreenVertex {
    ScreenVertex { x: x * SUBPIXEL, y: y * SUBPIXEL, z }
}

fn drawn(buf: &Buffer) -> Vec<(u32, u32)> {
    let mut v = Vec::new();
    for y in 0..buf.height {
        for x in 0..buf.width {
            if buf.pixel(x, y).color != BLACK {
                v.push((x, y));
            }
        }
    }
    v
}

#[test]
fn clamp_picks_bound_or_input() {
    assert_eq!(clamp(-5, 0, 10), 0);
    assert_eq!(clamp(15, 0, 10), 10);
    assert_eq!(clamp(7, 0, 10), 7);
    assert_eq!(clamp(10, 0, 10), 10);
    assert_eq!(clamp(3, 5, 1), 5);
}

#[test]
fn pixel_new_and_default() {
    let mut p = Pixel::new(1, 2, 3);
    assert_eq!(p.color, Color { r: 1, g: 2, b: 3 });
    let d = p.default();
    assert_eq!(d.color, BLACK);
    assert_eq!(p.color, Color { r: 1, g: 2, b: 3 });
}

#[test]
fn new_buffer_rejects_bad_sizes() {
    assert_eq!(Buffer::new(0, 4).err(), Some(BufferError::InvalidSize));
    assert_eq!(Buffer::new(4, 0).err(), Some(BufferError::InvalidSize));
    assert_eq!(Buffer::new(MAX_DIM + 1, 4).err(), Some(BufferError::InvalidSize));
    let wide = Buffer::new(40000, 1).unwrap();
    assert_eq!(wide.data.len(), 40000);
    let b = Buffer::new(3, 2).unwrap();
    assert_eq!(b.data.len(), 6);
    assert_eq!(b.depth.len(), 6);
    assert_eq!(b.depth_value(2, 1), DEPTH_LIMIT);
    assert_eq!(b.pixel(2, 1).color, BLACK);
}

#[test]
fn clears_fill_every_slot() {
    let mut b = Buffer::new(4, 3).unwrap();
    b.clear_color(Color { r: 9, g: 8, b: 7 });
    b.clear_depth(1000);
    for y in 0..3 {
        for x in 0..4 {
            assert_eq!(b.pixel(x, y).color, Color { r: 9, g: 8, b: 7 });
            assert_eq!(b.depth_value(x, y), 1000);
        }
    }
}

#[test]
fn byte_and_packed_views() {
    let mut b = Buffer::new(2, 1).unwrap();
    b.clear_color(Color { r: 0x12, g: 0x34, b: 0x56 });
    assert_eq!(b.data_as_u8_vec(), vec![0x12, 0x34, 0x56, 0x12, 0x34, 0x56]);
    assert_eq!(b.data_as_u32_vec(), vec![0x123456, 0x123456]);
}

#[test]
fn two_triangles_tile_a_square_exactly() {
    let (a, b, c, d) = (at(2, 2, 100), at(6, 6, 100), at(6, 2, 100), at(2, 6, 100));
    let mut first = Buffer::new(8, 8).unwrap();
    first.draw_triangle(a, b, c, RED, RED, RED);
    let mut second = Buffer::new(8, 8).unwrap();
    second.draw_triangle(b, a, d, GREEN, GREEN, GREEN);
    let p1 = drawn(&first);
    let p2 = drawn(&second);
    for p in &p1 {
        assert!(!p2.contains(p), "pixel {:?} drawn twice", p);
    }
    let mut union: Vec<(u32, u32)> = p1.iter().chain(p2.iter()).cloned().collect();
    union.sort();
    let mut square = Vec::new();
    for x in 2..6 {
        for y in 2..6 {
            square.push((x, y));
        }
    }
    square.sort();
    assert_eq!(union, square);
    // The shared diagonal belongs to the first triangle.
    for k in 2..6 {
        assert!(p1.contains(&(k, k)));
    }
}

#[test]
fn nearer_triangle_wins_in_either_order() {
    let far = DEPTH_LIMIT / 10 * 9;
    let near = DEPTH_LIMIT / 10;
    let tri = |z: i64| (at(1, 1, z), at(7, 7, z), at(7, 1, z));
    let (fa, fb, fc) = tri(far);
    let (na, nb, nc) = tri(near);

    let mut b = Buffer::new(8, 8).unwrap();
    b.draw_triangle(fa, fb, fc, BLUE, BLUE, BLUE);
    b.draw_triangle(na, nb, nc, RED, RED, RED);
    assert_eq!(b.pixel(5, 2).color, RED);
    assert_eq!(b.depth_value(5, 2), near);

    let mut b = Buffer::new(8, 8).unwrap();
    b.draw_triangle(na, nb, nc, RED, RED, RED);
    b.draw_triangle(fa, fb, fc, BLUE, BLUE, BLUE);
    assert_eq!(b.pixel(5, 2).color, RED);
    assert_eq!(b.depth_value(5, 2), near);
}

#[test]
fn colors_blend_barycentrically() {
    let mut b = Buffer::new(8, 8).unwrap();
    let (a, bb, c) = (at(0, 0, 10), at(6, 6, 10), at(6, 0, 10));
    b.draw_triangle(a, bb, c, RED, GREEN, BLUE);
    // At a vertex the color is that vertex's color.
    assert_eq!(b.pixel(0, 0).color, RED);
    // (4, 2): weights of a, b, c are 12, 12 and 12 of 36 (each a third).
    assert_eq!(b.pixel(4, 2).color, Color { r: 85, g: 85, b: 85 });
    // (3, 1): weights 18, 6, 12 of 36; 127.5 and 42.5 round up.
    assert_eq!(b.pixel(3, 1).color, Color { r: 128, g: 43, b: 85 });
    // (5, 1): weights 6, 6, 24 of 36: 42.5, 42.5, 170.
    assert_eq!(b.pixel(5, 1).color, Color { r: 43, g: 43, b: 170 });
}

#[test]
fn opposite_winding_is_not_drawn() {
    let mut b = Buffer::new(8, 8).unwrap();
    b.draw_triangle(at(2, 2, 1), at(6, 2, 1), at(6, 6, 1), RED, RED, RED);
    assert!(drawn(&b).is_empty());
}

#[test]
fn degenerate_triangle_draws_nothing() {
    let mut b = Buffer::new(8, 8).unwrap();
    b.draw_triangle(at(1, 1, 1), at(3, 3, 1), at(5, 5, 1), RED, RED, RED);
    b.draw_triangle(at(2, 2, 1), at(2, 2, 1), at(2, 2, 1), RED, RED, RED);
    assert!(drawn(&b).is_empty());
}

#[test]
fn out_of_range_vertex_draws_nothing() {
    let mut b = Buffer::new(8, 8).unwrap();
    b.draw_triangle(at(1, 1, -1), at(7, 7, 1), at(7, 1, 1), RED, RED, RED);
    b.draw_triangle(at(1, 1, 1), at(7, 7, DEPTH_LIMIT + 1), at(7, 1, 1), RED, RED, RED);
    assert!(drawn(&b).is_empty());
}

#[test]
fn triangle_partly_off_screen_is_cut_at_the_border() {
    let mut b = Buffer::new(4, 4).unwrap();
    b.draw_triangle(at(-10, -10, 5), at(20, 20, 5), at(20, -10, 5), RED, RED, RED);
    let p = drawn(&b);
    // Every pixel on or below the diagonal x >= y.
    assert_eq!(p.len(), 10);
    for (x, y) in p {
        assert!(x >= y);
    }
}

#[test]
fn cube_silhouette_matches_expected_extent() {
    let mut cube = Mesh::construct();
    Cube::new(&mut cube);
    // Corners at +-0.5 mapped with identity transforms onto a 16x16 buffer:
    // screen = (ndc + 1) * 8 pixels; depth = (z + 1) / 2 of the range.
    let corner = |x: i64, y: i64, z: i64| ScreenVertex {
        x: (x + 2) * 4 * SUBPIXEL,
        y: (y + 2) * 4 * SUBPIXEL,
        z: (z + 2) * DEPTH_LIMIT / 4,
    };
    let pos = [
        corner(-1, 1, 1),
        corner(1, 1, 1),
        corner(1, -1, 1),
        corner(-1, -1, 1),
        corner(-1, 1, -1),
        corner(1, 1, -1),
        corner(1, -1, -1),
        corner(-1, -1, -1),
    ];
    let mut buf = Buffer::new(16, 16).unwrap();
    buf.clear_depth(DEPTH_LIMIT + 1);
    for t in &cube.indices {
        buf.draw_triangle(pos[t[0] as usize], pos[t[1] as usize], pos[t[2] as usize], RED, GREEN, BLUE);
    }
    let p = drawn(&buf);
    let min_x = p.iter().map(|q| q.0).min().unwrap();
    let max_x = p.iter().map(|q| q.0).max().unwrap();
    let min_y = p.iter().map(|q| q.1).min().unwrap();
    let max_y = p.iter().map(|q| q.1).max().unwrap();
    assert_eq!((min_x, max_x, min_y, max_y), (4, 11, 4, 11));
    assert_eq!(p.len(), 64);
}

#[test]
fn two_triangles_tile_a_rectangle_exactly() {
    let (a, b, c, d) = (at(1, 1, 7), at(7, 3, 7), at(7, 1, 7), at(1, 3, 7));
    let mut first = Buffer::new(8, 5).unwrap();
    first.draw_triangle(a, b, c, RED, RED, RED);
    let mut second = Buffer::new(8, 5).unwrap();
    second.draw_triangle(b, a, d, GREEN, GREEN, GREEN);
    let p1 = drawn(&first);
    let p2 = drawn(&second);
    let mut union: Vec<(u32, u32)> = Vec::new();
    for p in p1.iter().chain(p2.iter()) {
        assert!(!union.contains(p), "pixel {:?} drawn twice", p);
        union.push(*p);
    }
    union.sort();
    let mut expected = Vec::new();
    for x in 1..7 {
        for y in 1..3 {
            expected.push((x, y));
        }
    }
    expected.sort();
    assert_eq!(union, expected);
}
