use screwdriver::clip::{clip_polyhedron_to_plane, line_plane_intersection, ClipError, Polyhedron};
use screwdriver::rational::Ratio;
use screwdriver::vector::Vec3R;

fn unit_cube(payload: i32) -> Polyhedron<i32> {
    // vertex layout: x then y then z sign pattern
    let vertices = vec![
        Vec3R::from_ints(-1, -1, 1),
        Vec3R::from_ints(-1, 1, 1),
        Vec3R::from_ints(-1, -1, -1),
        Vec3R::from_ints(-1, 1, -1),
        Vec3R::from_ints(1, -1, 1),
        Vec3R::from_ints(1, 1, 1),
        Vec3R::from_ints(1, -1, -1),
        Vec3R::from_ints(1, 1, -1),
    ];
    let faces = vec![
        (payload, vec![0, 1, 3, 2]),
        (payload, vec![2, 3, 7, 6]), // bottom: all z = -1
        (payload, vec![6, 7, 5, 4]),
        (payload, vec![4, 5, 1, 0]), // top: all z = +1
        (payload, vec![2, 6, 4, 0]),
        (payload, vec![7, 3, 1, 5]),
    ];
    Polyhedron { vertices, faces }
}

fn approx(v: &Vec3R) -> (f64, f64, f64) {
    let d = v.d as f64;
    (v.x as f64 / d, v.y as f64 / d, v.z as f64 / d)
}

#[test]
fn test_clip_cube_by_z_plane() {
    // Clipping the cube [-1,1]^3 by the plane through the origin with
    // normal +z keeps the bottom, cuts the four sides, and adds a cap.
    let mut poly = unit_cube(0);
    let p = Vec3R::from_ints(0, 0, 0);
    let n = Vec3R::from_ints(0, 0, 1);
    clip_polyhedron_to_plane(&mut poly, &p, &n, 99).unwrap();
    // the fully outside top face is dropped; what remains is the untouched
    // bottom face, the four reduced side faces, and the new top cap face
    assert_eq!(poly.faces.len(), 6);
    assert!(poly.faces.iter().any(|(_, ring)| ring == &vec![2, 3, 7, 6]));
    assert_eq!(poly.faces.iter().filter(|(info, _)| *info == 0).count(), 5);
    // the cap carries the new payload and has four vertices, all at z = 0
    let (info, cap) = poly.faces.last().unwrap();
    assert_eq!(*info, 99);
    assert_eq!(cap.len(), 4);
    for &vi in cap {
        assert_eq!(poly.vertices[vi].z, 0);
    }
    // every surviving vertex is on or behind the plane
    for (_, ring) in &poly.faces {
        for &vi in ring {
            let v = poly.vertices[vi];
            assert!(v.z <= 0 || v.d < 0);
        }
    }
}

#[test]
fn test_clip_twice_is_noop() {
    // After one clip no vertex lies strictly outside, so the same clip
    // again leaves the polyhedron exactly as it is.
    let mut poly = unit_cube(0);
    let p = Vec3R::from_ints(0, 0, 0);
    let n = Vec3R::from_ints(0, 0, 1);
    clip_polyhedron_to_plane(&mut poly, &p, &n, 99).unwrap();
    let faces_before: Vec<(i32, Vec<usize>)> = poly.faces.clone();
    let verts_before = poly.vertices.clone();
    clip_polyhedron_to_plane(&mut poly, &p, &n, 123).unwrap();
    assert_eq!(poly.faces, faces_before);
    assert_eq!(poly.vertices, verts_before);
}

#[test]
fn test_clip_tangent_at_one_vertex() {
    // A plane touching the cube at exactly one corner: with zero counted as
    // inside, every face keeps all its vertices and nothing is cut.
    let mut poly = unit_cube(7);
    let p = Vec3R::from_ints(1, 1, 1);
    let n = Vec3R::from_ints(1, 1, 1);
    clip_polyhedron_to_plane(&mut poly, &p, &n, 99).unwrap();
    assert_eq!(poly.faces.len(), 6);
    assert_eq!(poly.vertices.len(), 8);
    for (info, ring) in &poly.faces {
        assert_eq!(*info, 7);
        assert_eq!(ring.len(), 4);
    }
}

#[test]
fn test_clip_plane_outside_is_noop() {
    // A plane beyond the cube removes nothing.
    let mut poly = unit_cube(1);
    let p = Vec3R::from_ints(5, 0, 0);
    let n = Vec3R::from_ints(1, 0, 0);
    clip_polyhedron_to_plane(&mut poly, &p, &n, 99).unwrap();
    assert_eq!(poly.faces.len(), 6);
}

#[test]
fn test_clip_plane_swallows_cube() {
    // A plane behind the whole cube drops every face (and records no cap).
    let mut poly = unit_cube(1);
    let p = Vec3R::from_ints(-5, 0, 0);
    let n = Vec3R::from_ints(1, 0, 0);
    clip_polyhedron_to_plane(&mut poly, &p, &n, 99).unwrap();
    assert_eq!(poly.faces.len(), 0);
}

#[test]
fn test_clip_overflow_reported() {
    // Coordinates near the representable limit overflow the exact
    // arithmetic; the clip reports it instead of wrapping.
    let huge = i128::MAX / 2;
    let mut poly = unit_cube(0);
    poly.vertices[0] = Vec3R { x: huge, y: huge, z: huge, d: 1 };
    let p = Vec3R::from_ints(0, 0, 0);
    let n = Vec3R { x: huge, y: huge, z: huge, d: 1 };
    let r = clip_polyhedron_to_plane(&mut poly, &p, &n, 99);
    assert_eq!(r, Err(ClipError::Overflow));
    assert_eq!(poly.faces.len(), 0);
}

#[test]
fn test_line_plane_intersection() {
    let line_point = Vec3R::from_ratios(
        &Ratio::new(61, 10),
        &Ratio::new(-57, 10),
        &Ratio::new(-25, 10),
    )
    .unwrap();
    let line_normal = Vec3R::from_ratios(
        &Ratio::new(97, 10),
        &Ratio::new(-175, 10),
        &Ratio::new(-95, 10),
    )
    .unwrap();
    let plane_point = Vec3R::from_ratios(
        &Ratio::new(49, 10),
        &Ratio::new(57, 10),
        &Ratio::new(27, 10),
    )
    .unwrap();
    let plane_normal = Vec3R {
        x: 1_717_600_825_017_179,
        y: 1_243_779_907_771_060,
        z: -9_772_556_418_201_193,
        d: 10_000_000_000_000_000,
    };
    let r = line_plane_intersection(&line_point, &line_normal, &plane_point, &plane_normal)
        .unwrap()
        .unwrap();
    let (x, y, z) = approx(&r);
    assert!((x - 1.8213401).abs() < 1e-4);
    assert!((y - 2.0192318).abs() < 1e-4);
    assert!((z - 1.6904402).abs() < 1e-4);
    // the intersection lies exactly on the plane
    let w = r.sub(&plane_point).unwrap();
    let d = w.dot(&plane_normal).unwrap();
    assert!(d.is_zero());
}

#[test]
fn test_line_segment_parallel_returns_none() {
    let a = Vec3R::from_ints(0, 0, 1);
    let b = Vec3R::from_ints(1, 0, 1);
    let p = Vec3R::from_ints(0, 0, 0);
    let n = Vec3R::from_ints(0, 0, 1);
    let r = screwdriver::clip::line_segment_plane_intersection((&a, &b), &p, &n).unwrap();
    assert!(r.is_none());
}
