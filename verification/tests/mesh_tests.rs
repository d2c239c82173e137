use screwdriver::displacement::UVAxis;
use screwdriver::mesh::{flat_face_vertices, VertexSize};
use screwdriver::rational::Ratio;
use screwdriver::vector::Vec3R;

fn axis(x: i64, y: i64, z: i64) -> UVAxis {
    UVAxis {
        dir: Vec3R::from_ints(x, y, z),
        translation: Ratio::zero(),
        scaling: Ratio::from_int(1),
    }
}

#[test]
fn test_flat_face_fan() {
    // a unit square fans into two triangles around its first vertex
    let verts = vec![
        Vec3R::from_ints(0, 0, 0),
        Vec3R::from_ints(1, 0, 0),
        Vec3R::from_ints(1, 1, 0),
        Vec3R::from_ints(0, 1, 0),
    ];
    let ring = vec![0, 1, 2, 3];
    let out = flat_face_vertices(&verts, &ring, &axis(1, 0, 0), &axis(0, 1, 0)).unwrap();
    assert_eq!(out.len(), 6);
    // triangles (v0, v1, v2) and (v0, v2, v3)
    assert_eq!(out[0].position, verts[0]);
    assert_eq!(out[1].position, verts[1]);
    assert_eq!(out[2].position, verts[2]);
    assert_eq!(out[3].position, verts[0]);
    assert_eq!(out[4].position, verts[2]);
    assert_eq!(out[5].position, verts[3]);
    for mv in &out {
        // the outward normal of this winding is cross(v1-v0, v2-v0) = +z
        assert_eq!(mv.normal, Vec3R::from_ints(0, 0, 1));
        // axes equal to the square's own edges project corners to {0,1}^2
        assert!(mv.u == Ratio::from_int(0) || mv.u == Ratio::from_int(1));
        assert!(mv.v == Ratio::from_int(0) || mv.v == Ratio::from_int(1));
        assert_eq!(mv.alpha, Ratio::zero());
    }
}

#[test]
fn test_flat_face_degenerate_normal() {
    // three collinear loop vertices have no outward normal
    let verts = vec![
        Vec3R::from_ints(0, 0, 0),
        Vec3R::from_ints(1, 0, 0),
        Vec3R::from_ints(2, 0, 0),
    ];
    let ring = vec![0, 1, 2];
    assert!(flat_face_vertices(&verts, &ring, &axis(1, 0, 0), &axis(0, 1, 0)).is_err());
}

#[test]
fn test_vertex_size() {
    assert_eq!(VertexSize::VEC1.components(), 1);
    assert_eq!(VertexSize::VEC2.components(), 2);
    assert_eq!(VertexSize::VEC3.components(), 3);
    assert_eq!(VertexSize::VEC4.components(), 4);
    assert_eq!(VertexSize::VEC3.vertex_count(12), 4);
    assert_eq!(VertexSize::VEC2.vertex_count(7), 3);
}
