use ruster::mat4::transpose;
use ruster::mesh::{Cube, Mesh, MeshError, Sphere, Triangle};

fn all_valid(m: &Mesh) -> bool {
    m.indices.iter().all(|t| t.iter().all(|&i| i < m.v_size))
}

#[test]
fn construct_is_empty() {
    let m = Mesh::construct();
    assert_eq!((m.v_size, m.t_size, m.indices.len()), (0, 0, 0));
}

#[test]
fn triangle_mesh() {
    let mut m = Mesh::construct();
    Triangle::new(&mut m);
    assert_eq!((m.v_size, m.t_size), (3, 1));
    assert_eq!(m.indices, vec![[0, 1, 2]]);
}

#[test]
fn cube_mesh() {
    let mut m = Mesh::construct();
    Cube::new(&mut m);
    assert_eq!((m.v_size, m.t_size), (8, 12));
    assert_eq!(m.indices[0], [0, 1, 3]);
    assert_eq!(m.indices[7], [5, 1, 0]);
    assert_eq!(m.indices[11], [7, 6, 5]);
    assert!(all_valid(&m));
}

#[test]
fn sphere_counts() {
    let mut m = Mesh::construct();
    assert_eq!(Sphere::new(&mut m, 18, 13), Ok(()));
    assert_eq!(m.v_size, 18 * (13 + 2));
    assert_eq!(m.t_size, 468);
    assert_eq!(m.indices.len(), 468);
    assert!(all_valid(&m));
}

#[test]
fn sphere_band_wraps_at_the_seam() {
    let m = Mesh::sphere(4, 2).unwrap();
    assert_eq!(m.v_size, 16);
    assert_eq!(m.t_size, 16);
    // Band 0, first quad half: ((rr+1)%4, rr+4, (rr+1)%4+4).
    assert_eq!(m.indices[0], [1, 4, 5]);
    assert_eq!(m.indices[3], [0, 7, 4]);
    // Band 0, second halves start at position vert.
    assert_eq!(m.indices[4], [4, 8, 5]);
    assert_eq!(m.indices[7], [7, 11, 4]);
    // Band 1 starts at position 2 * vert.
    assert_eq!(m.indices[8], [5, 8, 9]);
    assert!(all_valid(&m));
}

#[test]
fn sphere_rejects_zero_segments() {
    let mut m = Mesh::construct();
    assert_eq!(Sphere::new(&mut m, 0, 13), Err(MeshError::ZeroSegments));
    assert_eq!(Sphere::new(&mut m, 18, 0), Err(MeshError::ZeroSegments));
    assert_eq!(m.v_size, 0);
}

#[test]
fn sphere_rejects_overflowing_counts() {
    assert_eq!(Mesh::sphere(u32::MAX, 1).err(), Some(MeshError::TooLarge));
    assert_eq!(Mesh::sphere(70000, 70000).err(), Some(MeshError::TooLarge));
}

#[test]
fn cone_topology() {
    let m = Mesh::cone(12).unwrap();
    assert_eq!((m.v_size, m.t_size), (36, 24));
    assert_eq!(m.indices[0], [1, 12, 13]);
    assert_eq!(m.indices[12], [12, 24, 13]);
    assert!(all_valid(&m));
    assert_eq!(Mesh::cone(0).err(), Some(MeshError::ZeroSegments));
}

#[test]
fn torus_topology() {
    let m = Mesh::torus(4, 10).unwrap();
    assert_eq!((m.v_size, m.t_size), (55, 80));
    assert_eq!(m.indices[0], [0, 1, 11]);
    assert_eq!(m.indices[1], [11, 1, 12]);
    // Cell (1, 2): v1 = 1 * 11 + 2, v2 = v1 + 11.
    assert_eq!(m.indices[2 * (10 + 2)], [13, 14, 24]);
    assert_eq!(m.indices[2 * (10 + 2) + 1], [24, 14, 25]);
    assert!(all_valid(&m));
    assert_eq!(Mesh::torus(0, 3).err(), Some(MeshError::ZeroSegments));
    assert_eq!(Mesh::torus(3, 0).err(), Some(MeshError::ZeroSegments));
    assert_eq!(Mesh::torus(70000, 70000).err(), Some(MeshError::TooLarge));
}

#[test]
fn transpose_swaps_rows_and_columns() {
    let mut m: [i32; 16] = [0, 1, 2, 3, 4, 5, 6, 7, 8, 9, 10, 11, 12, 13, 14, 15];
    transpose(&mut m);
    assert_eq!(m, [0, 4, 8, 12, 1, 5, 9, 13, 2, 6, 10, 14, 3, 7, 11, 15]);
}

#[test]
fn transpose_twice_is_identity() {
    let orig: [f32; 16] = [
        1.5, -2.0, 3.25, 0.0, 4.0, 5.5, -6.0, 7.0, 8.0, 9.0, 10.0, -11.5, 12.0, 13.0, 14.0, 15.0,
    ];
    let mut m = orig;
    transpose(&mut m);
    assert_ne!(m, orig);
    transpose(&mut m);
    assert_eq!(m, orig);
}
