//! Triangle index buffers of the procedural primitives.
//!
//! A mesh here is its topology: how many vertex slots it has and which three
//! slots make each triangle. Vertex positions are computed by the caller in
//! the same slot order (ring by ring for the sphere and cone, slice by slice
//! for the torus).
use vstd::prelude::*;
use vstd::arithmetic::mul::*;

verus! {

/// Why a mesh could not be generated.
#[derive(Clone, Copy, Debug, PartialEq, Eq, Structural)]
pub enum MeshError {
    /// A segment count is zero.
    ZeroSegments,
    /// A vertex or triangle count does not fit in `u32`.
    TooLarge,
}

/// Vertex count and triangle index triples of a mesh.
pub struct Mesh {
    pub v_size: u32,
    pub t_size: u32,
    pub indices: Vec<[u32; 3]>,
}

/// Whether the triple `t` is `(a, b, c)`.
pub open spec fn tri_is(t: [u32; 3], a: int, b: int, c: int) -> bool {
    t@[0] == a && t@[1] == b && t@[2] == c
}

/// Whether every slot of `t` is below `n`.
pub open spec fn tri_valid(t: [u32; 3], n: int) -> bool {
    t@[0] < n && t@[1] < n && t@[2] < n
}

/// Position of triangle `k` of band `yy` in a ring mesh with `vert` segments.
pub open spec fn band_slot(vert: int, yy: int, k: int) -> int {
    2 * vert * yy + k
}

/// Triangle `k` (below `2 * vert`) of the band between rings `yy` and `yy + 1`:
/// the first `vert` close the quads against ring `yy`, the next `vert`
/// against ring `yy + 2`'s side; longitude wraps with `% vert`.
pub open spec fn band_tri(vert: int, yy: int, k: int, t: [u32; 3]) -> bool {
    if k < vert {
        tri_is(t, (k + 1) % vert + yy * vert, k + vert + yy * vert, (k + 1) % vert + vert + yy * vert)
    } else {
        let rr = k - vert;
        tri_is(t, rr + vert + yy * vert, rr + 2 * vert + yy * vert, (rr + 1) % vert + vert + yy * vert)
    }
}

/// Position of the two triangles of grid cell `(i, j)` in a torus with `loops` loops.
pub open spec fn cell_slot(loops: int, i: int, j: int) -> int {
    2 * (loops * i + j)
}

/// The two triangles of grid cell `(i, j)` of a torus with `loops` loops.
pub open spec fn cell_tris(loops: int, i: int, j: int, t0: [u32; 3], t1: [u32; 3]) -> bool {
    let v1 = i * (loops + 1) + j;
    let v2 = v1 + loops + 1;
    tri_is(t0, v1, v1 + 1, v2) && tri_is(t1, v2, v1 + 1, v2 + 1)
}

/// Winding table of the cube, two triangles per face.
pub open spec fn cube_table() -> Seq<(int, int, int)> {
    seq![
        (0, 1, 3), (1, 2, 3), (4, 0, 3), (7, 4, 3), (2, 1, 5), (2, 5, 6),
        (0, 4, 5), (5, 1, 0), (6, 7, 3), (3, 2, 6), (7, 5, 4), (7, 6, 5),
    ]
}

impl Mesh {
    /// The counts match the buffer and every index names a vertex slot.
    pub open spec fn wf(&self) -> bool {
        &&& self.indices@.len() == self.t_size
        &&& forall|t: int| 0 <= t < self.t_size ==> tri_valid(#[trigger] self.indices@[t], self.v_size as int)
    }

    /// The empty mesh.
    pub fn construct() -> (m: Mesh)
        ensures
            m.wf(),
            m.v_size == 0,
            m.t_size == 0,
    {
        Mesh { v_size: 0, t_size: 0, indices: Vec::new() }
    }

    /// The single triangle: three vertex slots, one triangle `(0, 1, 2)`.
    pub fn triangle() -> (m: Mesh)
        ensures
            m.wf(),
            m.v_size == 3,
            m.t_size == 1,
            tri_is(m.indices@[0], 0, 1, 2),
    {
        let mut indices: Vec<[u32; 3]> = Vec::new();
        indices.push([0, 1, 2]);
        Mesh { v_size: 3, t_size: 1, indices }
    }

    /// The cube: eight corner slots and twelve triangles in the fixed winding table.
    pub fn cube() -> (m: Mesh)
        ensures
            m.wf(),
            m.v_size == 8,
            m.t_size == 12,
            forall|t: int| 0 <= t < 12 ==> tri_is(#[trigger] m.indices@[t], cube_table()[t].0, cube_table()[t].1, cube_table()[t].2),
    {
        let indices: Vec<[u32; 3]> = vec![
            [0, 1, 3], [1, 2, 3], [4, 0, 3], [7, 4, 3], [2, 1, 5], [2, 5, 6],
            [0, 4, 5], [5, 1, 0], [6, 7, 3], [3, 2, 6], [7, 5, 4], [7, 6, 5],
        ];
        let m = Mesh { v_size: 8, t_size: 12, indices };
        assert(forall|t: int| 0 <= t < 12 ==> tri_is(#[trigger] m.indices@[t], cube_table()[t].0, cube_table()[t].1, cube_table()[t].2));
        m
    }

    /// The cone's topology: the ring mesh of `sphere(vert, 1)`, three rings of
    /// `vert` slots (the apex ring collapses to a point once positioned).
    pub fn cone(vert: u32) -> (r: Result<Mesh, MeshError>)
        ensures
            r is Err <==> vert == 0 || 3 * vert > u32::MAX,
            vert == 0 ==> r == Err::<Mesh, MeshError>(MeshError::ZeroSegments),
            (r is Err && vert > 0) ==> r == Err::<Mesh, MeshError>(MeshError::TooLarge),
            r matches Ok(m) ==> {
                &&& m.wf()
                &&& m.v_size == 3 * vert
                &&& m.t_size == 2 * vert
                &&& forall|k: int| 0 <= k < 2 * vert ==>
                    band_tri(vert as int, 0, k, m.indices@[#[trigger] band_slot(vert as int, 0, k)])
            },
    {
        let r = Mesh::sphere(vert, 1);
        proof {
            if r is Ok {
                let m = r->Ok_0;
                assert forall|k: int| 0 <= k < 2 * vert implies
                    band_tri(vert as int, 0, k, m.indices@[#[trigger] band_slot(vert as int, 0, k)]) by {
                    assert(band_tri(vert as int, 0, k, m.indices@[band_slot(vert as int, 0, k)]));
                }
            }
        }
        r
    }

    /// The torus's topology: `(slices + 1) * (loops + 1)` slots, slice `i` at
    /// slots `i * (loops + 1) ..`, and two triangles per grid cell, cell
    /// `(i, j)` at positions `2 * (loops * i + j)` and the next. The seam is
    /// closed by the duplicated last slice and loop, not by wrapping.
    ///
    /// Fails with `ZeroSegments` when `slices` or `loops` is zero, and with
    /// `TooLarge` when a count exceeds `u32`.
    pub fn torus(slices: u32, loops: u32) -> (r: Result<Mesh, MeshError>)
        ensures
            r is Err <==> slices == 0 || loops == 0 || (slices + 1) * (loops + 1) > u32::MAX || 2 * slices
                * loops > u32::MAX,
            (slices == 0 || loops == 0) ==> r == Err::<Mesh, MeshError>(MeshError::ZeroSegments),
            (r is Err && slices > 0 && loops > 0) ==> r == Err::<Mesh, MeshError>(MeshError::TooLarge),
            r matches Ok(m) ==> {
                &&& m.wf()
                &&& m.v_size == (slices + 1) * (loops + 1)
                &&& m.t_size == 2 * slices * loops
                &&& forall|i: int, j: int| 0 <= i < slices && 0 <= j < loops ==>
                    cell_tris(loops as int, i, j, m.indices@[#[trigger] cell_slot(loops as int, i, j)],
                        m.indices@[cell_slot(loops as int, i, j) + 1])
            },
    {
        if slices == 0 || loops == 0 {
            return Err(MeshError::ZeroSegments);
        }
        proof {
            lemma_mul_upper_bound(slices + 1, u32::MAX + 1, loops + 1, u32::MAX + 1);
            lemma_mul_upper_bound(slices as int, u32::MAX as int, loops as int, u32::MAX as int);
        }
        let vs: u128 = (slices as u128 + 1) * (loops as u128 + 1);
        let ts: u128 = 2 * (slices as u128 * loops as u128);
        assert(2 * slices * loops == 2 * (loops * slices) && 2 * (slices * loops) == 2 * slices * loops) by (nonlinear_arith);
        if vs > u32::MAX as u128 || ts > u32::MAX as u128 {
            return Err(MeshError::TooLarge);
        }
        assert(loops * slices + slices + loops + 1 == (slices + 1) * (loops + 1)) by (nonlinear_arith);
        let v_size = vs as u32;
        let per_slice = loops + 1;
        let mut indices: Vec<[u32; 3]> = Vec::new();
        let mut i: u32 = 0;
        while i < slices
            invariant
                0 < loops,
                i <= slices,
                per_slice == loops + 1,
                v_size == (slices + 1) * (loops + 1),
                v_size <= u32::MAX,
                indices@.len() == 2 * (loops * i),
                forall|t: int| 0 <= t < indices@.len() ==> tri_valid(#[trigger] indices@[t], v_size as int),
                forall|i2: int, j: int| 0 <= i2 < i && 0 <= j < loops ==>
                    cell_tris(loops as int, i2, j, indices@[#[trigger] cell_slot(loops as int, i2, j)],
                        indices@[cell_slot(loops as int, i2, j) + 1]),
            decreases slices - i,
        {
            assert(i * (loops + 1) + 2 * loops + 1 < (slices + 1) * (loops + 1)) by (nonlinear_arith)
                requires i < slices, loops >= 1;
            let mut v1 = i * per_slice;
            let mut v2 = v1 + per_slice;
            let mut j: u32 = 0;
            while j < loops
                invariant
                    0 < loops,
                    i < slices,
                    j <= loops,
                    per_slice == loops + 1,
                    v1 == i * (loops + 1) + j,
                    v2 == v1 + loops + 1,
                    i * (loops + 1) + 2 * loops + 1 < (slices + 1) * (loops + 1),
                    v_size == (slices + 1) * (loops + 1),
                    v_size <= u32::MAX,
                    indices@.len() == 2 * (loops * i + j),
                    forall|t: int| 0 <= t < indices@.len() ==> tri_valid(#[trigger] indices@[t], v_size as int),
                    forall|i2: int, j2: int| 0 <= i2 < i && 0 <= j2 < loops ==>
                        cell_tris(loops as int, i2, j2, indices@[#[trigger] cell_slot(loops as int, i2, j2)],
                            indices@[cell_slot(loops as int, i2, j2) + 1]),
                    forall|j2: int| 0 <= j2 < j ==>
                        cell_tris(loops as int, i as int, j2, indices@[#[trigger] cell_slot(loops as int, i as int, j2)],
                            indices@[cell_slot(loops as int, i as int, j2) + 1]),
                decreases loops - j,
            {
                let ghost before = indices@;
                indices.push([v1, v1 + 1, v2]);
                indices.push([v2, v1 + 1, v2 + 1]);
                proof {
                    assert(cell_slot(loops as int, i as int, j as int) == before.len());
                    assert forall|i2: int, j2: int| 0 <= i2 < i && 0 <= j2 < loops implies
                        cell_tris(loops as int, i2, j2, indices@[#[trigger] cell_slot(loops as int, i2, j2)],
                            indices@[cell_slot(loops as int, i2, j2) + 1]) by {
                        assert(cell_slot(loops as int, i2, j2) + 1 < before.len()) by (nonlinear_arith)
                            requires i2 < i, j2 < loops, before.len() == 2 * (loops * i + j), j >= 0, j2 >= 0,
                                cell_slot(loops as int, i2, j2) == 2 * (loops * i2 + j2);
                        assert(indices@[cell_slot(loops as int, i2, j2)] == before[cell_slot(loops as int, i2, j2)]);
                        assert(indices@[cell_slot(loops as int, i2, j2) + 1] == before[cell_slot(loops as int, i2, j2) + 1]);
                    }
                    assert forall|j2: int| 0 <= j2 < j + 1 implies
                        cell_tris(loops as int, i as int, j2, indices@[#[trigger] cell_slot(loops as int, i as int, j2)],
                            indices@[cell_slot(loops as int, i as int, j2) + 1]) by {
                        if j2 < j {
                            assert(indices@[cell_slot(loops as int, i as int, j2)] == before[cell_slot(loops as int, i as int, j2)]);
                            assert(indices@[cell_slot(loops as int, i as int, j2) + 1] == before[cell_slot(loops as int, i as int, j2) + 1]);
                        }
                    }
                }
                v1 = v1 + 1;
                v2 = v2 + 1;
                j = j + 1;
            }
            proof {
                assert(loops * i + loops == loops * (i + 1)) by (nonlinear_arith);
            }
            i = i + 1;
        }
        Ok(Mesh { v_size, t_size: ts as u32, indices })
    }

    /// A ring mesh of `horiz + 2` rings with `vert` slots each, ring `yy`
    /// at slots `yy * vert ..`, and `2 * vert` triangles between each ring
    /// `yy < horiz` and the next.
    ///
    /// Fails with `ZeroSegments` when `vert` or `horiz` is zero, and with
    /// `TooLarge` when `vert * (horiz + 2)` or `2 * vert * horiz` exceeds `u32`.
    pub fn sphere(vert: u32, horiz: u32) -> (r: Result<Mesh, MeshError>)
        ensures
            r is Err <==> vert == 0 || horiz == 0 || vert * (horiz + 2) > u32::MAX || 2 * vert * horiz > u32::MAX,
            (vert == 0 || horiz == 0) ==> r == Err::<Mesh, MeshError>(MeshError::ZeroSegments),
            (r is Err && vert > 0 && horiz > 0) ==> r == Err::<Mesh, MeshError>(MeshError::TooLarge),
            r matches Ok(m) ==> {
                &&& m.wf()
                &&& m.v_size == vert * (horiz + 2)
                &&& m.t_size == 2 * vert * horiz
                &&& forall|yy: int, k: int| 0 <= yy < horiz && 0 <= k < 2 * vert ==>
                    band_tri(vert as int, yy, k, m.indices@[#[trigger] band_slot(vert as int, yy, k)])
            },
    {
        if vert == 0 || horiz == 0 {
            return Err(MeshError::ZeroSegments);
        }
        proof {
            lemma_mul_upper_bound(vert as int, u32::MAX as int, horiz + 2, u32::MAX + 2);
            lemma_mul_upper_bound(vert as int, u32::MAX as int, horiz as int, u32::MAX as int);
            lemma_mul_inequality(horiz as int, horiz + 2, vert as int);
            lemma_mul_is_commutative(vert as int, horiz as int);
            lemma_mul_is_commutative(vert as int, horiz + 2);
        }
        assert(2 * vert * horiz == 2 * (vert * horiz) && 2 * vert <= 2 * vert * horiz) by (nonlinear_arith)
            requires horiz >= 1, vert >= 0;
        let vs: u64 = vert as u64 * (horiz as u64 + 2);
        if vs > u32::MAX as u64 || 2 * (vert as u64 * horiz as u64) > u32::MAX as u64 {
            return Err(MeshError::TooLarge);
        }
        let v_size = vs as u32;
        let t_size = (2 * (vert as u64 * horiz as u64)) as u32;
        let mut indices: Vec<[u32; 3]> = Vec::new();
        let mut yy: u32 = 0;
        while yy < horiz
            invariant
                0 < vert,
                yy <= horiz,
                v_size == vert * (horiz + 2),
                v_size <= u32::MAX,
                2 * vert <= u32::MAX,
                indices@.len() == 2 * vert * yy,
                forall|t: int| 0 <= t < indices@.len() ==> tri_valid(#[trigger] indices@[t], v_size as int),
                forall|y2: int, k: int| 0 <= y2 < yy && 0 <= k < 2 * vert ==>
                    band_tri(vert as int, y2, k, indices@[#[trigger] band_slot(vert as int, y2, k)]),
            decreases horiz - yy,
        {
            let mut k: u32 = 0;
            while k < 2 * vert
                invariant
                    0 < vert,
                    yy < horiz,
                    k <= 2 * vert,
                    v_size == vert * (horiz + 2),
                    v_size <= u32::MAX,
                    2 * vert <= u32::MAX,
                    indices@.len() == 2 * vert * yy + k,
                    forall|t: int| 0 <= t < indices@.len() ==> tri_valid(#[trigger] indices@[t], v_size as int),
                    forall|y2: int, k2: int| 0 <= y2 < yy && 0 <= k2 < 2 * vert ==>
                        band_tri(vert as int, y2, k2, indices@[#[trigger] band_slot(vert as int, y2, k2)]),
                    forall|k2: int| 0 <= k2 < k ==>
                        band_tri(vert as int, yy as int, k2, indices@[#[trigger] band_slot(vert as int, yy as int, k2)]),
                decreases 2 * vert - k,
            {
                assert(2 * vert + yy * vert + vert <= vert * (horiz + 2)) by (nonlinear_arith)
                    requires yy < horiz, vert > 0;
                let base = yy * vert;
                let tri: [u32; 3] = if k < vert {
                    [(k + 1) % vert + base, k + vert + base, (k + 1) % vert + vert + base]
                } else {
                    let rr = k - vert;
                    [rr + vert + base, rr + 2 * vert + base, (rr + 1) % vert + vert + base]
                };
                let ghost before = indices@;
                indices.push(tri);
                proof {
                    assert(band_slot(vert as int, yy as int, k as int) == before.len());
                    assert forall|y2: int, k2: int| 0 <= y2 < yy && 0 <= k2 < 2 * vert implies
                        band_tri(vert as int, y2, k2, indices@[#[trigger] band_slot(vert as int, y2, k2)]) by {
                        assert(band_slot(vert as int, y2, k2) < before.len()) by (nonlinear_arith)
                            requires y2 < yy, k2 < 2 * vert, before.len() == 2 * vert * yy + k, k >= 0,
                                band_slot(vert as int, y2, k2) == 2 * vert * y2 + k2;
                        assert(indices@[band_slot(vert as int, y2, k2)] == before[band_slot(vert as int, y2, k2)]);
                    }
                    assert forall|k2: int| 0 <= k2 < k + 1 implies
                        band_tri(vert as int, yy as int, k2, indices@[#[trigger] band_slot(vert as int, yy as int, k2)]) by {
                        if k2 < k {
                            assert(indices@[band_slot(vert as int, yy as int, k2)] == before[band_slot(vert as int, yy as int, k2)]);
                        }
                    }
                }
                k = k + 1;
            }
            proof {
                assert(2 * vert * yy + 2 * vert == 2 * vert * (yy + 1)) by (nonlinear_arith);
            }
            yy = yy + 1;
        }
        proof {
            assert(2 * vert * horiz == t_size);
        }
        Ok(Mesh { v_size, t_size, indices })
    }
}

/// Fills a mesh with the single triangle.
pub trait Triangle: Sized {
    /// The mesh is the single triangle.
    spec fn is_triangle(&self) -> bool;

    fn new(&mut self)
        ensures
            final(self).is_triangle(),
    ;
}

/// Fills a mesh with the cube.
pub trait Cube: Sized {
    /// The mesh is the cube.
    spec fn is_cube(&self) -> bool;

    fn new(&mut self)
        ensures
            final(self).is_cube(),
    ;
}

/// Fills a mesh with the UV sphere's topology; on failure the mesh is left as it was.
pub trait Sphere: Sized {
    /// The mesh is the sphere of `vert` segments and `horiz` inner rings.
    spec fn is_sphere(&self, vert: u32, horiz: u32) -> bool;

    fn new(&mut self, vert: u32, horiz: u32) -> (r: Result<(), MeshError>)
        ensures
            r is Err <==> vert == 0 || horiz == 0 || vert * (horiz + 2) > u32::MAX || 2 * vert * horiz
                > u32::MAX,
            (vert == 0 || horiz == 0) ==> r == Err::<(), MeshError>(MeshError::ZeroSegments),
            (r is Err && vert > 0 && horiz > 0) ==> r == Err::<(), MeshError>(MeshError::TooLarge),
            r is Err ==> *final(self) == *old(self),
            r is Ok ==> final(self).is_sphere(vert, horiz),
    ;
}

impl Triangle for Mesh {
    open spec fn is_triangle(&self) -> bool {
        &&& self.wf()
        &&& self.v_size == 3
        &&& self.t_size == 1
        &&& tri_is(self.indices@[0], 0, 1, 2)
    }

    fn new(&mut self) {
        *self = Mesh::triangle();
    }
}

impl Cube for Mesh {
    open spec fn is_cube(&self) -> bool {
        &&& self.wf()
        &&& self.v_size == 8
        &&& self.t_size == 12
        &&& forall|t: int| 0 <= t < 12 ==> tri_is(#[trigger] self.indices@[t], cube_table()[t].0, cube_table()[t].1, cube_table()[t].2)
    }

    fn new(&mut self) {
        *self = Mesh::cube();
    }
}

impl Sphere for Mesh {
    open spec fn is_sphere(&self, vert: u32, horiz: u32) -> bool {
        &&& self.wf()
        &&& self.v_size == vert * (horiz + 2)
        &&& self.t_size == 2 * vert * horiz
        &&& forall|yy: int, k: int| 0 <= yy < horiz && 0 <= k < 2 * vert ==>
            band_tri(vert as int, yy, k, self.indices@[#[trigger] band_slot(vert as int, yy, k)])
    }

    fn new(&mut self, vert: u32, horiz: u32) -> (r: Result<(), MeshError>) {
        match Mesh::sphere(vert, horiz) {
            Ok(m) => {
                *self = m;
                Ok(())
            },
            Err(e) => Err(e),
        }
    }
}

} // verus!
