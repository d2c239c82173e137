use screwdriver::displacement::{
    find_start_corner, get_disp_point, get_uv_point, isqrt_u128, normalize_normals, tessellate,
    Dispinfo, MeshError, UVAxis,
};
use screwdriver::rational::Ratio;
use screwdriver::vector::Vec3R;

fn grid3(side: usize, v: Vec3R) -> Vec<Vec<Vec3R>> {
    vec![vec![v; side]; side]
}

fn gridr(side: usize, v: Ratio) -> Vec<Vec<Ratio>> {
    vec![vec![v; side]; side]
}

fn gridu(side: usize, v: u8) -> Vec<Vec<u8>> {
    vec![vec![v; side]; side]
}

fn axis(x: i64, y: i64, z: i64) -> UVAxis {
    UVAxis {
        dir: Vec3R::from_ints(x, y, z),
        translation: Ratio::zero(),
        scaling: Ratio::from_int(1),
    }
}

fn flat_disp(power: u8, side: usize) -> Dispinfo {
    Dispinfo {
        power,
        startpos: Vec3R::from_ints(0, 0, 0),
        elevation: Ratio::zero(),
        subdiv: false,
        normals: grid3(side, Vec3R::from_ints(0, 0, 1)),
        distances: gridr(side, Ratio::zero()),
        offsets: grid3(side, Vec3R::from_ints(0, 0, 0)),
        alphas: gridu(side, 0),
    }
}

#[test]
fn test_flat_quad_round_trip() {
    // A flat displacement — zero offsets, zero distances, normals equal to
    // the face normal — reproduces the quad's own subdivision exactly.
    let s = Vec3R::from_ints(0, 0, 0);
    let r = Vec3R::from_ints(4, 0, 0);
    let o = Vec3R::from_ints(4, 4, 0);
    let c = Vec3R::from_ints(0, 4, 0);
    let disp = flat_disp(2, 5);
    let ua = axis(1, 0, 0);
    let va = axis(0, 1, 0);
    let out = tessellate(&disp, &s, &r, &o, &c, &ua, &va).unwrap();
    assert_eq!(out.len(), 6 * 4 * 4);
    for (k, mv) in out.iter().enumerate() {
        let cell = k / 6;
        let role = k % 6;
        let (dr, dc) = [(0, 0), (0, 1), (1, 0), (1, 0), (0, 1), (1, 1)][role];
        let gr = (cell / 4) + dr;
        let gc = (cell % 4) + dc;
        // base point of a flat axis-aligned quad: x = gr, y = gc, z = 0
        let base = get_disp_point(gr, gc, 4, &s, &r, &o, &c).unwrap();
        assert_eq!(mv.position, base);
        assert_eq!(mv.position.z, 0);
        assert_eq!(mv.position.x, gr as i128);
        assert_eq!(mv.position.y, gc as i128);
        assert_eq!(mv.position.d, 1);
        // the texture projection of the position itself
        assert_eq!(mv.u.n, gr as i128);
        assert_eq!(mv.v.n, gc as i128);
        assert_eq!(mv.alpha.n, 0);
    }
}

#[test]
fn test_displaced_positions() {
    // Distances displace along the stored normal; elevation adds on top.
    let s = Vec3R::from_ints(0, 0, 0);
    let r = Vec3R::from_ints(4, 0, 0);
    let o = Vec3R::from_ints(4, 4, 0);
    let c = Vec3R::from_ints(0, 4, 0);
    let mut disp = flat_disp(2, 5);
    disp.distances = gridr(5, Ratio::from_int(3));
    disp.elevation = Ratio::from_int(2);
    let ua = axis(1, 0, 0);
    let va = axis(0, 1, 0);
    let out = tessellate(&disp, &s, &r, &o, &c, &ua, &va).unwrap();
    for mv in &out {
        // every vertex sits at z = 3 + 2 = 5
        assert_eq!(mv.position.z, 5 * mv.position.d);
        assert_eq!(mv.normal, Vec3R::from_ints(0, 0, 1));
    }
}

#[test]
fn test_uv_round_trip_unit_square() {
    // Projecting a quad's corners with axes equal to its own unit edge
    // directions and zero translation yields (u, v) in {0,1}^2.
    let ua = axis(1, 0, 0);
    let va = axis(0, 1, 0);
    let corners = [
        (Vec3R::from_ints(0, 0, 0), (0, 0)),
        (Vec3R::from_ints(1, 0, 0), (1, 0)),
        (Vec3R::from_ints(1, 1, 0), (1, 1)),
        (Vec3R::from_ints(0, 1, 0), (0, 1)),
    ];
    for (p, (eu, ev)) in corners.iter() {
        let (u, v) = get_uv_point(&ua, &va, p).unwrap();
        assert_eq!(u, Ratio::from_int(*eu));
        assert_eq!(v, Ratio::from_int(*ev));
    }
}

#[test]
fn test_uv_errors() {
    let p = Vec3R::from_ints(1, 2, 3);
    let zero_dir = axis(0, 0, 0);
    let good = axis(1, 0, 0);
    assert_eq!(
        get_uv_point(&zero_dir, &good, &p).unwrap_err(),
        MeshError::DegenerateUvAxis
    );
    let mut zero_scale = axis(1, 0, 0);
    zero_scale.scaling = Ratio::zero();
    assert_eq!(
        get_uv_point(&zero_scale, &good, &p).unwrap_err(),
        MeshError::ZeroUvScale
    );
}

#[test]
fn test_repair_renormalizes_exactly() {
    // A normal of length 2 is brought to unit length and its distance
    // rescaled by the same factor; the square root is exact here.
    let normals = vec![vec![Vec3R::from_ints(2, 0, 0)]];
    let distances = vec![vec![Ratio::from_int(3)]];
    let fnm = Vec3R::from_ints(1, 0, 0);
    let (nn, nd) = normalize_normals(&normals, &distances, &fnm).unwrap();
    assert_eq!(nn[0][0], Vec3R::from_ints(1, 0, 0));
    assert_eq!(nd[0][0], Ratio::from_int(6));
}

#[test]
fn test_repair_replaces_zero_and_flips() {
    let normals = vec![
        vec![Vec3R::from_ints(0, 0, 0), Vec3R::from_ints(0, 0, -1)],
        vec![Vec3R::from_ints(0, 0, 1), Vec3R::from_ints(0, 0, 1)],
    ];
    let distances = vec![
        vec![Ratio::from_int(5), Ratio::from_int(2)],
        vec![Ratio::from_int(1), Ratio::from_int(-1)],
    ];
    let fnm = Vec3R::from_ints(0, 0, 1);
    let (nn, nd) = normalize_normals(&normals, &distances, &fnm).unwrap();
    // a zero normal becomes the face normal with distance forced to zero
    assert_eq!(nn[0][0], fnm);
    assert_eq!(nd[0][0], Ratio::zero());
    // a normal pointing into the solid is negated together with its distance
    assert_eq!(nn[0][1], Vec3R::from_ints(0, 0, 1));
    assert_eq!(nd[0][1], Ratio::from_int(-2));
    // a unit normal agreeing with the face normal is untouched
    assert_eq!(nn[1][0], Vec3R::from_ints(0, 0, 1));
    assert_eq!(nd[1][0], Ratio::from_int(1));
}

#[test]
fn test_repair_zero_face_normal_rejected() {
    let normals = vec![vec![Vec3R::from_ints(0, 0, 0)]];
    let distances = vec![vec![Ratio::zero()]];
    let fnm = Vec3R::from_ints(0, 0, 0);
    assert_eq!(
        normalize_normals(&normals, &distances, &fnm).unwrap_err(),
        MeshError::ZeroFaceNormal
    );
}

#[test]
fn test_find_start_corner() {
    let verts = vec![
        Vec3R::from_ints(0, 0, 0),
        Vec3R::from_ints(10, 0, 0),
        Vec3R::from_ints(10, 10, 0),
        Vec3R::from_ints(0, 10, 0),
    ];
    let ring = vec![0, 1, 2, 3];
    // matches within tolerance (squared distance below one)
    let near = Vec3R::from_ratios(&Ratio::new(101, 10), &Ratio::new(1, 10), &Ratio::zero())
        .unwrap();
    assert_eq!(find_start_corner(&verts, &ring, &near).unwrap(), 1);
    // no vertex within tolerance
    let far = Vec3R::from_ints(50, 50, 50);
    assert_eq!(
        find_start_corner(&verts, &ring, &far).unwrap_err(),
        MeshError::CornerMismatch
    );
}

#[test]
fn test_isqrt() {
    assert_eq!(isqrt_u128(0), 0);
    assert_eq!(isqrt_u128(1), 1);
    assert_eq!(isqrt_u128(3), 1);
    assert_eq!(isqrt_u128(4), 2);
    assert_eq!(isqrt_u128(99), 9);
    assert_eq!(isqrt_u128(1 << 34), 1 << 17);
    assert_eq!(isqrt_u128(u128::MAX), (1u128 << 64) - 1);
}
