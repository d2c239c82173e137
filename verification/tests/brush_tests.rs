use screwdriver::brush::{get_polyhedron, Brush, BrushError, Face};
use screwdriver::displacement::{Dispinfo, UVAxis};
use screwdriver::rational::Ratio;
use screwdriver::vector::Vec3R;

fn axis(x: i64, y: i64, z: i64) -> UVAxis {
    UVAxis {
        dir: Vec3R::from_ints(x, y, z),
        translation: Ratio::zero(),
        scaling: Ratio::from_int(1),
    }
}

fn face(id: i32, p0: (i64, i64, i64), p1: (i64, i64, i64), p2: (i64, i64, i64)) -> Face {
    Face {
        id,
        plane: (
            Vec3R::from_ints(p0.0, p0.1, p0.2),
            Vec3R::from_ints(p1.0, p1.1, p1.2),
            Vec3R::from_ints(p2.0, p2.1, p2.2),
        ),
        material: String::from("dev/dev_measuregeneric01"),
        uaxis: axis(1, 0, 0),
        vaxis: axis(0, -1, 0),
        lightmapscale: 16,
        smoothing_groups: 0,
        dispinfo: None,
    }
}

/// The six bounding faces of the cube [-64, 64]^3, outward normals given by
/// `cross(p2 - p0, p1 - p0)`.
fn cube_faces() -> Vec<Face> {
    vec![
        face(1, (0, 0, 64), (0, 1, 64), (1, 0, 64)),     // top, normal +z
        face(2, (0, 0, -64), (1, 0, -64), (0, 1, -64)),  // bottom, normal -z
        face(3, (64, 0, 0), (64, 0, 1), (64, 1, 0)),     // +x
        face(4, (-64, 0, 0), (-64, 1, 0), (-64, 0, 1)),  // -x
        face(5, (0, 64, 0), (1, 64, 0), (0, 64, 1)),     // +y
        face(6, (0, -64, 0), (0, -64, 1), (1, -64, 0)),  // -y
    ]
}

#[test]
fn test_build_cube_brush() {
    // A face list that bounds a finite region leaves zero untagged faces.
    let shape = get_polyhedron(cube_faces()).unwrap();
    assert_eq!(shape.faces.len(), 6);
    for (info, ring) in &shape.faces {
        assert!(info.is_some());
        assert_eq!(ring.len(), 4);
        for &vi in ring {
            let v = shape.vertices[vi];
            // every corner coordinate is exactly +-64
            assert_eq!(v.d, 1);
            assert!(v.x == 64 || v.x == -64);
            assert!(v.y == 64 || v.y == -64);
            assert!(v.z == 64 || v.z == -64);
        }
    }
    // the face order follows the descriptor order
    let ids: Vec<i32> = shape.faces.iter().map(|(info, _)| info.as_ref().unwrap().id).collect();
    assert_eq!(ids, vec![1, 2, 3, 4, 5, 6]);
}

#[test]
fn test_unclosed_brush_rejected() {
    // A single half-space cannot bound a finite region.
    let mut faces = cube_faces();
    faces.truncate(1);
    assert!(matches!(
        get_polyhedron(faces),
        Err(BrushError::UnclosedBrush)
    ));
}

#[test]
fn test_malformed_plane_rejected() {
    // Three collinear points have a zero-length normal.
    let bad = face(1, (0, 0, 0), (1, 1, 1), (2, 2, 2));
    assert!(matches!(
        get_polyhedron(vec![bad]),
        Err(BrushError::MalformedPlane)
    ));
}

#[test]
fn test_has_displacement() {
    let shape = get_polyhedron(cube_faces()).unwrap();
    let brush = Brush { id: 1, shape };
    assert!(!brush.has_displacement());

    let mut faces = cube_faces();
    faces[0].dispinfo = Some(Dispinfo {
        power: 2,
        startpos: Vec3R::from_ints(-64, -64, 64),
        elevation: Ratio::zero(),
        subdiv: false,
        normals: vec![vec![Vec3R::from_ints(0, 0, 1); 5]; 5],
        distances: vec![vec![Ratio::zero(); 5]; 5],
        offsets: vec![vec![Vec3R::from_ints(0, 0, 0); 5]; 5],
        alphas: vec![vec![0u8; 5]; 5],
    });
    let shape2 = get_polyhedron(faces).unwrap();
    let brush2 = Brush { id: 2, shape: shape2 };
    assert!(brush2.has_displacement());
}

#[test]
fn test_build_order_insensitive_geometry() {
    // The final geometric result does not depend on the face order; the
    // exact vertex indices may.
    let shape_a = get_polyhedron(cube_faces()).unwrap();
    let mut rev = cube_faces();
    rev.reverse();
    let shape_b = get_polyhedron(rev).unwrap();
    let mut corners_a: Vec<(i128, i128, i128)> = Vec::new();
    for (_, ring) in &shape_a.faces {
        for &vi in ring {
            let v = shape_a.vertices[vi];
            corners_a.push((v.x / v.d, v.y / v.d, v.z / v.d));
        }
    }
    let mut corners_b: Vec<(i128, i128, i128)> = Vec::new();
    for (_, ring) in &shape_b.faces {
        for &vi in ring {
            let v = shape_b.vertices[vi];
            corners_b.push((v.x / v.d, v.y / v.d, v.z / v.d));
        }
    }
    corners_a.sort();
    corners_b.sort();
    assert_eq!(corners_a, corners_b);
}
