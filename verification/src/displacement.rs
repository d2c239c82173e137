//! Displacement surfaces and texture projection.
//!
//! A displacement expands one flat quad face into a regular
//! `(2^power + 1) x (2^power + 1)` grid of vertices, each moved by a stored
//! offset and along a stored per-cell normal, and emits two triangles per
//! grid cell. The texture projector maps a position to `(u, v)` coordinates
//! through the face's two texture axes.
//!
//! As in the clipping engine, every executable step mirrors a spec-level
//! function exactly, so the emitted triangle list is pinned down to the last
//! vertex, including the order in which malformed data is reported.

use crate::rational::{
    in_range, lemma_norm2_eq, lemma_rs_eq_trans, mul_rng, norm2, rs_add, rs_add_ok, rs_div,
    rs_div_ok, rs_eq, rs_int, rs_mul, rs_mul_ok, rs_neg, RatS, Ratio,
};
use crate::vector::{
    lemma_add_zero, lemma_norm4_eq, lemma_scale_zero, lemma_vs_eq_trans, vs_add, vs_add_ok,
    vs_dot, vs_dot_ok, vs_eq, vs_is_zero, vs_neg, vs_scale, vs_scale_ok, vs_sub, vs_sub_ok,
    Vec3R, Vec3S,
};
use vstd::prelude::*;

verus! {

/// Why a displacement face or a texture projection was rejected. The face in
/// question can be skipped while the rest of the brush renders.
#[derive(Clone, Copy, Debug, PartialEq, Eq, Structural)]
pub enum MeshError {
    /// An intermediate product left the representable range.
    Overflow,
    /// A texture axis direction is the zero vector.
    DegenerateUvAxis,
    /// A texture axis scale is zero.
    ZeroUvScale,
    /// No vertex of the quad matches the displacement's declared start
    /// position within tolerance.
    CornerMismatch,
    /// The face normal handed to the repair pass is the zero vector, so a
    /// missing cell normal cannot be replaced.
    ZeroFaceNormal,
}

/// `r` is the integer square root of `s`, rounded down.
pub open spec fn is_floor_sqrt(s: int, r: int) -> bool {
    0 <= r && r * r <= s < (r + 1) * (r + 1)
}

/// The integer square root, rounded down.
pub open spec fn floor_sqrt(s: int) -> int {
    choose|r: int| #[trigger] is_floor_sqrt(s, r)
}

/// The integer square root is unique.
proof fn lemma_floor_sqrt_unique(s: int, r1: int, r2: int)
    by (nonlinear_arith)
    requires
        is_floor_sqrt(s, r1),
        is_floor_sqrt(s, r2),
    ensures
        r1 == r2,
{
}

/// Whatever satisfies the square-root property is the `floor_sqrt`.
proof fn lemma_floor_sqrt_is(s: int, r: int)
    requires
        is_floor_sqrt(s, r),
    ensures
        floor_sqrt(s) == r,
{
    assert(is_floor_sqrt(s, floor_sqrt(s)));
    lemma_floor_sqrt_unique(s, floor_sqrt(s), r);
}

/// Integer square root by bisection.
pub fn isqrt_u128(x: u128) -> (r: u128)
    ensures
        r as int == floor_sqrt(x as int),
        is_floor_sqrt(x as int, r as int),
{
    let mut lo: u128 = 0;
    let mut hi: u128 = 1u128 << 64;
    proof {
        assert(1u128 << 64 == 0x1_0000_0000_0000_0000u128) by (bit_vector);
        assert((hi as int) * (hi as int) > x as int) by (nonlinear_arith)
            requires
                hi as int == 0x1_0000_0000_0000_0000,
                x as int <= u128::MAX as int,
        ;
    }
    while lo + 1 < hi
        invariant
            lo < hi,
            hi <= 0x1_0000_0000_0000_0000u128,
            (lo as int) * (lo as int) <= x as int,
            (hi as int) * (hi as int) > x as int,
        decreases hi - lo,
    {
        let mid = lo + (hi - lo) / 2;
        proof {
            assert(lo < mid < hi);
            assert((mid as int) * (mid as int) <= (0xffff_ffff_ffff_ffffu64 as int) * (
            0xffff_ffff_ffff_ffffu64 as int)) by (nonlinear_arith)
                requires
                    0 <= mid as int <= 0xffff_ffff_ffff_ffffu64 as int,
            ;
        }
        let sq = mid * mid;
        if sq <= x {
            lo = mid;
        } else {
            hi = mid;
        }
    }
    proof {
        assert(hi == lo + 1);
        assert(is_floor_sqrt(x as int, lo as int));
        lemma_floor_sqrt_is(x as int, lo as int);
    }
    lo
}

/// One texture axis: a direction, a scale, and a translation.
#[derive(Clone, Copy, Debug, PartialEq, Eq, Structural)]
pub struct UVAxis {
    pub dir: Vec3R,
    pub translation: Ratio,
    pub scaling: Ratio,
}

impl UVAxis {
    pub open spec fn wf(self) -> bool {
        self.dir.wf() && self.translation.wf() && self.scaling.wf()
    }
}

/// One texture coordinate:
/// `dot(p, dir) / dot(dir, dir) / scaling + translation`.
/// Dividing by `dot(dir, dir)` compensates for a direction that is not a
/// unit vector. A zero direction or a zero scale has no defined coordinate
/// and is an error.
pub open spec fn uv_coord_spec(dir: Vec3S, scaling: RatS, translation: RatS, p: Vec3S) -> Result<
    RatS,
    MeshError,
> {
    if !vs_dot_ok(p, dir) {
        Err(MeshError::Overflow)
    } else if !vs_dot_ok(dir, dir) {
        Err(MeshError::Overflow)
    } else if vs_dot(dir, dir).n == 0 {
        Err(MeshError::DegenerateUvAxis)
    } else if !rs_div_ok(vs_dot(p, dir), vs_dot(dir, dir)) {
        Err(MeshError::Overflow)
    } else if scaling.n == 0 {
        Err(MeshError::ZeroUvScale)
    } else {
        let q1 = rs_div(vs_dot(p, dir), vs_dot(dir, dir));
        if !rs_div_ok(q1, scaling) {
            Err(MeshError::Overflow)
        } else if !rs_add_ok(rs_div(q1, scaling), translation) {
            Err(MeshError::Overflow)
        } else {
            Ok(rs_add(rs_div(q1, scaling), translation))
        }
    }
}

/// One texture coordinate, as executed.
fn uv_coord(axis: &UVAxis, p: &Vec3R) -> (r: Result<Ratio, MeshError>)
    requires
        axis.wf(),
        p.wf(),
    ensures
        match r {
            Ok(c) => c.wf() && uv_coord_spec(axis.dir@, axis.scaling@, axis.translation@, p@)
                == Ok::<RatS, MeshError>(c@),
            Err(e) => uv_coord_spec(axis.dir@, axis.scaling@, axis.translation@, p@) == Err::<
                RatS,
                MeshError,
            >(e),
        },
{
    let d1 = match p.dot(&axis.dir) {
        Some(x) => x,
        None => {
            return Err(MeshError::Overflow);
        },
    };
    let d2 = match axis.dir.dot(&axis.dir) {
        Some(x) => x,
        None => {
            return Err(MeshError::Overflow);
        },
    };
    if d2.is_zero() {
        return Err(MeshError::DegenerateUvAxis);
    }
    let q1 = match d1.div(&d2) {
        Some(x) => x,
        None => {
            return Err(MeshError::Overflow);
        },
    };
    if axis.scaling.is_zero() {
        return Err(MeshError::ZeroUvScale);
    }
    let q2 = match q1.div(&axis.scaling) {
        Some(x) => x,
        None => {
            return Err(MeshError::Overflow);
        },
    };
    match q2.add(&axis.translation) {
        Some(x) => Ok(x),
        None => Err(MeshError::Overflow),
    }
}

/// The pair of texture coordinates of a position under two axes.
pub open spec fn uv_point_spec(ua: UVAxis, va: UVAxis, p: Vec3S) -> Result<(RatS, RatS), MeshError> {
    match uv_coord_spec(ua.dir@, ua.scaling@, ua.translation@, p) {
        Err(e) => Err(e),
        Ok(u) => match uv_coord_spec(va.dir@, va.scaling@, va.translation@, p) {
            Err(e) => Err(e),
            Ok(v) => Ok((u, v)),
        },
    }
}

/// Projects a position onto a face's texture plane: the `u` coordinate from
/// the first axis and the `v` coordinate from the second.
pub fn get_uv_point(uaxis: &UVAxis, vaxis: &UVAxis, point: &Vec3R) -> (r: Result<
    (Ratio, Ratio),
    MeshError,
>)
    requires
        uaxis.wf(),
        vaxis.wf(),
        point.wf(),
    ensures
        match r {
            Ok(c) => c.0.wf() && c.1.wf() && uv_point_spec(*uaxis, *vaxis, point@) == Ok::<
                (RatS, RatS),
                MeshError,
            >((c.0@, c.1@)),
            Err(e) => uv_point_spec(*uaxis, *vaxis, point@) == Err::<(RatS, RatS), MeshError>(e),
        },
{
    let u = match uv_coord(uaxis, point) {
        Ok(u) => u,
        Err(e) => {
            return Err(e);
        },
    };
    let v = match uv_coord(vaxis, point) {
        Ok(v) => v,
        Err(e) => {
            return Err(e);
        },
    };
    Ok((u, v))
}

/// Linear interpolation `a + (b - a) * t`.
pub open spec fn lerp_spec(a: Vec3S, b: Vec3S, t: RatS) -> Result<Vec3S, MeshError> {
    if !vs_sub_ok(b, a) {
        Err(MeshError::Overflow)
    } else if !vs_scale_ok(vs_sub(b, a), t) {
        Err(MeshError::Overflow)
    } else if !vs_add_ok(a, vs_scale(vs_sub(b, a), t)) {
        Err(MeshError::Overflow)
    } else {
        Ok(vs_add(a, vs_scale(vs_sub(b, a), t)))
    }
}

/// Linear interpolation, as executed.
fn lerp(a: &Vec3R, b: &Vec3R, t: &Ratio) -> (r: Result<Vec3R, MeshError>)
    requires
        a.wf(),
        b.wf(),
        t.wf(),
    ensures
        match r {
            Ok(v) => v.wf() && lerp_spec(a@, b@, t@) == Ok::<Vec3S, MeshError>(v@),
            Err(e) => lerp_spec(a@, b@, t@) == Err::<Vec3S, MeshError>(e),
        },
{
    let d = match b.sub(a) {
        Some(d) => d,
        None => {
            return Err(MeshError::Overflow);
        },
    };
    let s = match d.scale(t) {
        Some(s) => s,
        None => {
            return Err(MeshError::Overflow);
        },
    };
    match a.add(&s) {
        Some(v) => Ok(v),
        None => Err(MeshError::Overflow),
    }
}

/// The undisplaced base position of grid point `(row, column)`: bilinear
/// interpolation of the quad's four corners, first along the start-to-row
/// and column-to-opposite edges, then across by the column fraction.
pub open spec fn disp_point_spec(
    row: int,
    column: int,
    cells: int,
    start_point: Vec3S,
    row_point: Vec3S,
    opposite_point: Vec3S,
    column_point: Vec3S,
) -> Result<Vec3S, MeshError> {
    let fr = norm2(row, cells);
    let fc = norm2(column, cells);
    match lerp_spec(start_point, row_point, fr) {
        Err(e) => Err(e),
        Ok(p1) => match lerp_spec(column_point, opposite_point, fr) {
            Err(e) => Err(e),
            Ok(p2) => lerp_spec(p1, p2, fc),
        },
    }
}

/// The undisplaced base position of a grid point, as executed.
pub fn get_disp_point(
    row: usize,
    column: usize,
    cells: usize,
    start_point: &Vec3R,
    row_point: &Vec3R,
    opposite_point: &Vec3R,
    column_point: &Vec3R,
) -> (r: Result<Vec3R, MeshError>)
    requires
        0 < cells <= 16,
        row <= cells,
        column <= cells,
        start_point.wf(),
        row_point.wf(),
        opposite_point.wf(),
        column_point.wf(),
    ensures
        match r {
            Ok(v) => v.wf() && disp_point_spec(
                row as int,
                column as int,
                cells as int,
                start_point@,
                row_point@,
                opposite_point@,
                column_point@,
            ) == Ok::<Vec3S, MeshError>(v@),
            Err(e) => disp_point_spec(
                row as int,
                column as int,
                cells as int,
                start_point@,
                row_point@,
                opposite_point@,
                column_point@,
            ) == Err::<Vec3S, MeshError>(e),
        },
{
    let fr = Ratio::new(row as i64, cells as i64);
    let fc = Ratio::new(column as i64, cells as i64);
    let p1 = match lerp(start_point, row_point, &fr) {
        Ok(p) => p,
        Err(e) => {
            return Err(e);
        },
    };
    let p2 = match lerp(column_point, opposite_point, &fr) {
        Ok(p) => p,
        Err(e) => {
            return Err(e);
        },
    };
    lerp(&p1, &p2, &fc)
}

/// Repair of one grid cell's normal and distance, before meshing:
/// - a zero normal is replaced by the face normal, with the distance forced
///   to zero;
/// - a normal pointing into the solid (negative dot with the face normal) is
///   negated together with its distance;
/// - a normal whose squared length is not exactly one is brought to unit
///   length and its distance rescaled by the same factor, using the integer
///   square root at a fixed precision of 2^16, so the result is pinned down
///   exactly even though a square root is rarely rational.
pub open spec fn repair_cell(n0: Vec3S, d0: RatS, fnm: Vec3S) -> Result<(Vec3S, RatS), MeshError> {
    let n1 = if vs_is_zero(n0) {
        fnm
    } else {
        n0
    };
    let d1 = if vs_is_zero(n0) {
        rs_int(0)
    } else {
        d0
    };
    if !vs_dot_ok(n1, fnm) {
        Err(MeshError::Overflow)
    } else {
        let n2 = if vs_dot(n1, fnm).n < 0 {
            vs_neg(n1)
        } else {
            n1
        };
        let d2 = if vs_dot(n1, fnm).n < 0 {
            rs_neg(d1)
        } else {
            d1
        };
        if !vs_dot_ok(n2, n2) {
            Err(MeshError::Overflow)
        } else {
            let s = vs_dot(n2, n2);
            if s.n == s.d {
                Ok((n2, d2))
            } else if s.n <= 0 {
                Err(MeshError::ZeroFaceNormal)
            } else if !in_range(s.n * s.d) {
                Err(MeshError::Overflow)
            } else if !in_range((s.n * s.d) * 0x1_0000_0000) {
                Err(MeshError::Overflow)
            } else if !in_range(65536 * s.d) {
                Err(MeshError::Overflow)
            } else {
                let rt = floor_sqrt((s.n * s.d) * 0x1_0000_0000);
                let t1 = RatS { n: 65536 * s.d, d: rt };
                let t2 = RatS { n: rt, d: 65536 * s.d };
                if !vs_scale_ok(n2, t1) {
                    Err(MeshError::Overflow)
                } else if !rs_mul_ok(d2, t2) {
                    Err(MeshError::Overflow)
                } else {
                    Ok((vs_scale(n2, t1), rs_mul(d2, t2)))
                }
            }
        }
    }
}

/// Repair of one grid cell, as executed.
fn repair_one(n0: &Vec3R, d0: &Ratio, fnm: &Vec3R) -> (r: Result<(Vec3R, Ratio), MeshError>)
    requires
        n0.wf(),
        d0.wf(),
        fnm.wf(),
    ensures
        match r {
            Ok(p) => p.0.wf() && p.1.wf() && repair_cell(n0@, d0@, fnm@) == Ok::<
                (Vec3S, RatS),
                MeshError,
            >((p.0@, p.1@)),
            Err(e) => repair_cell(n0@, d0@, fnm@) == Err::<(Vec3S, RatS), MeshError>(e),
        },
{
    let n1: Vec3R = if n0.is_zero() {
        *fnm
    } else {
        *n0
    };
    let d1: Ratio = if n0.is_zero() {
        Ratio::zero()
    } else {
        *d0
    };
    let dp = match n1.dot(fnm) {
        Some(x) => x,
        None => {
            return Err(MeshError::Overflow);
        },
    };
    let n2: Vec3R = if dp.is_neg() {
        n1.neg()
    } else {
        n1
    };
    let d2: Ratio = if dp.is_neg() {
        d1.neg()
    } else {
        d1
    };
    let s = match n2.dot(&n2) {
        Some(x) => x,
        None => {
            return Err(MeshError::Overflow);
        },
    };
    if s.n == s.d {
        return Ok((n2, d2));
    }
    if s.n <= 0 {
        return Err(MeshError::ZeroFaceNormal);
    }
    let w = match mul_rng(s.n, s.d) {
        Some(x) => x,
        None => {
            return Err(MeshError::Overflow);
        },
    };
    let wp = match mul_rng(w, 0x1_0000_0000i128) {
        Some(x) => x,
        None => {
            return Err(MeshError::Overflow);
        },
    };
    proof {
        assert(w >= 1) by (nonlinear_arith)
            requires
                s@.n >= 1,
                s@.d >= 1,
                w as int == s@.n * s@.d,
        ;
        assert(wp >= 1) by (nonlinear_arith)
            requires
                w >= 1,
                wp as int == w as int * 0x1_0000_0000,
        ;
    }
    let rt = isqrt_u128(wp as u128);
    proof {
        assert(rt >= 1) by {
            if rt == 0 {
                assert(is_floor_sqrt(wp as int, 0));
            }
        }
        assert(rt as int <= wp as int) by (nonlinear_arith)
            requires
                is_floor_sqrt(wp as int, rt as int),
                wp >= 1,
        ;
    }
    let psd = match mul_rng(65536i128, s.d) {
        Some(x) => x,
        None => {
            return Err(MeshError::Overflow);
        },
    };
    let t1 = Ratio { n: psd, d: rt as i128 };
    let t2 = Ratio { n: rt as i128, d: psd };
    proof {
        assert(psd >= 1) by (nonlinear_arith)
            requires
                s@.d >= 1,
                psd as int == 65536 * s@.d,
        ;
    }
    let nn = match n2.scale(&t1) {
        Some(v) => v,
        None => {
            return Err(MeshError::Overflow);
        },
    };
    let nd = match d2.mul(&t2) {
        Some(v) => v,
        None => {
            return Err(MeshError::Overflow);
        },
    };
    Ok((nn, nd))
}

/// The values of a grid of vectors.
pub open spec fn grid3_view(g: Seq<Vec<Vec3R>>) -> Seq<Seq<Vec3S>> {
    Seq::new(g.len(), |i: int| crate::clip::verts_view(g[i]@))
}

/// The values of a grid of scalars.
pub open spec fn gridr_view(g: Seq<Vec<Ratio>>) -> Seq<Seq<RatS>> {
    Seq::new(g.len(), |i: int| Seq::new(g[i]@.len(), |j: int| g[i]@[j]@))
}

/// A square grid of well-formed vectors with this side length.
pub open spec fn grid3_wf(g: Seq<Vec<Vec3R>>, side: int) -> bool {
    &&& g.len() == side
    &&& forall|i: int| 0 <= i < side ==> (#[trigger] g[i])@.len() == side
    &&& forall|i: int, j: int|
        0 <= i < side && 0 <= j < side ==> (#[trigger] g[i]@[j]).wf()
}

/// A square grid of well-formed scalars with this side length.
pub open spec fn gridr_wf(g: Seq<Vec<Ratio>>, side: int) -> bool {
    &&& g.len() == side
    &&& forall|i: int| 0 <= i < side ==> (#[trigger] g[i])@.len() == side
    &&& forall|i: int, j: int|
        0 <= i < side && 0 <= j < side ==> (#[trigger] g[i]@[j]).wf()
}

/// The first repair error in row-major order, if any.
pub open spec fn first_repair_err(
    ns: Seq<Seq<Vec3S>>,
    ds: Seq<Seq<RatS>>,
    fnm: Vec3S,
    i: int,
    j: int,
    side: int,
) -> Option<MeshError>
    decreases side - i, side - j,
{
    if i >= side {
        None
    } else if j >= side || j < 0 {
        first_repair_err(ns, ds, fnm, i + 1, 0, side)
    } else {
        match repair_cell(ns[i][j], ds[i][j], fnm) {
            Err(e) => Some(e),
            Ok(_) => first_repair_err(ns, ds, fnm, i, j + 1, side),
        }
    }
}

/// The repair pass over a whole displacement grid, run once per face before
/// any mesh is emitted: every cell's normal and distance are repaired by
/// `repair_cell`, or the first malformed cell in row-major order is
/// reported. This is a pure validation pass, separate from mesh emission.
pub fn normalize_normals(
    normals: &Vec<Vec<Vec3R>>,
    distances: &Vec<Vec<Ratio>>,
    face_normal: &Vec3R,
) -> (r: Result<(Vec<Vec<Vec3R>>, Vec<Vec<Ratio>>), MeshError>)
    requires
        grid3_wf(normals@, normals@.len() as int),
        gridr_wf(distances@, normals@.len() as int),
        face_normal.wf(),
    ensures
        match r {
            Ok(out) => {
                &&& first_repair_err(
                    grid3_view(normals@),
                    gridr_view(distances@),
                    face_normal@,
                    0,
                    0,
                    normals@.len() as int,
                ) is None
                &&& grid3_wf(out.0@, normals@.len() as int)
                &&& gridr_wf(out.1@, normals@.len() as int)
                &&& forall|i: int, j: int|
                    0 <= i < normals@.len() && 0 <= j < normals@.len()
                        ==> #[trigger] repair_cell(
                        grid3_view(normals@)[i][j],
                        gridr_view(distances@)[i][j],
                        face_normal@,
                    ) == Ok::<(Vec3S, RatS), MeshError>(
                        (grid3_view(out.0@)[i][j], gridr_view(out.1@)[i][j]),
                    )
            },
            Err(e) => first_repair_err(
                grid3_view(normals@),
                gridr_view(distances@),
                face_normal@,
                0,
                0,
                normals@.len() as int,
            ) == Some(e),
        },
{
    let side = normals.len();
    let ghost ns = grid3_view(normals@);
    let ghost ds = gridr_view(distances@);
    let mut out_n: Vec<Vec<Vec3R>> = Vec::new();
    let mut out_d: Vec<Vec<Ratio>> = Vec::new();
    let mut i: usize = 0;
    while i < side
        invariant
            side == normals@.len(),
            ns == grid3_view(normals@),
            ds == gridr_view(distances@),
            grid3_wf(normals@, side as int),
            gridr_wf(distances@, side as int),
            face_normal.wf(),
            i <= side,
            out_n@.len() == i,
            out_d@.len() == i,
            first_repair_err(ns, ds, face_normal@, 0, 0, side as int) == first_repair_err(
                ns,
                ds,
                face_normal@,
                i as int,
                0,
                side as int,
            ),
            forall|a: int| 0 <= a < i ==> (#[trigger] out_n@[a])@.len() == side,
            forall|a: int| 0 <= a < i ==> (#[trigger] out_d@[a])@.len() == side,
            forall|a: int, b: int|
                0 <= a < i && 0 <= b < side ==> (#[trigger] out_n@[a]@[b]).wf(),
            forall|a: int, b: int|
                0 <= a < i && 0 <= b < side ==> (#[trigger] out_d@[a]@[b]).wf(),
            forall|a: int, b: int|
                0 <= a < i && 0 <= b < side ==> #[trigger] repair_cell(
                    ns[a][b],
                    ds[a][b],
                    face_normal@,
                ) == Ok::<(Vec3S, RatS), MeshError>((out_n@[a]@[b]@, out_d@[a]@[b]@)),
        decreases side - i,
    {
        let mut row_n: Vec<Vec3R> = Vec::new();
        let mut row_d: Vec<Ratio> = Vec::new();
        let mut j: usize = 0;
        while j < side
            invariant
                side == normals@.len(),
                ns == grid3_view(normals@),
                ds == gridr_view(distances@),
                grid3_wf(normals@, side as int),
                gridr_wf(distances@, side as int),
                face_normal.wf(),
                i < side,
                j <= side,
                row_n@.len() == j,
                row_d@.len() == j,
                first_repair_err(ns, ds, face_normal@, 0, 0, side as int) == first_repair_err(
                    ns,
                    ds,
                    face_normal@,
                    i as int,
                    j as int,
                    side as int,
                ),
                forall|b: int| 0 <= b < j ==> (#[trigger] row_n@[b]).wf(),
                forall|b: int| 0 <= b < j ==> (#[trigger] row_d@[b]).wf(),
                forall|b: int|
                    0 <= b < j ==> #[trigger] repair_cell(ns[i as int][b], ds[i as int][b],
                    face_normal@) == Ok::<(Vec3S, RatS), MeshError>((row_n@[b]@, row_d@[b]@)),
            decreases side - j,
        {
            proof {
                assert(ns[i as int][j as int] == normals@[i as int]@[j as int]@);
                assert(ds[i as int][j as int] == distances@[i as int]@[j as int]@);
            }
            match repair_one(&normals[i][j], &distances[i][j], face_normal) {
                Ok(p) => {
                    row_n.push(p.0);
                    row_d.push(p.1);
                },
                Err(e) => {
                    return Err(e);
                },
            }
            j += 1;
        }
        out_n.push(row_n);
        out_d.push(row_d);
        proof {
            assert(first_repair_err(ns, ds, face_normal@, i as int, side as int, side as int)
                == first_repair_err(ns, ds, face_normal@, i as int + 1, 0, side as int));
        }
        i += 1;
    }
    proof {
        assert forall|a: int, b: int|
            0 <= a < side && 0 <= b < side implies #[trigger] repair_cell(
            ns[a][b],
            ds[a][b],
            face_normal@,
        ) == Ok::<(Vec3S, RatS), MeshError>(
            (grid3_view(out_n@)[a][b], gridr_view(out_d@)[a][b]),
        ) by {
            assert(repair_cell(ns[a][b], ds[a][b], face_normal@) == Ok::<
                (Vec3S, RatS),
                MeshError,
            >((out_n@[a]@[b]@, out_d@[a]@[b]@)));
            assert(grid3_view(out_n@)[a][b] == out_n@[a]@[b]@);
            assert(gridr_view(out_d@)[a][b] == out_d@[a]@[b]@);
        }
    }
    Ok((out_n, out_d))
}

/// A square grid of alpha bytes with this side length.
pub open spec fn gridu_wf(g: Seq<Vec<u8>>, side: int) -> bool {
    g.len() == side && forall|i: int| 0 <= i < side ==> (#[trigger] g[i])@.len() == side
}

/// The values of a grid of alpha bytes.
pub open spec fn gridu_view(g: Seq<Vec<u8>>) -> Seq<Seq<int>> {
    Seq::new(g.len(), |i: int| Seq::new(g[i]@.len(), |j: int| g[i]@[j] as int))
}

/// Parsed displacement data for one face: a power-of-two grid of per-cell
/// normals, signed distances, positional offsets and alpha values, plus the
/// start corner and a constant elevation. The normal and distance grids are
/// stored already repaired (see `normalize_normals`).
#[derive(Debug, Clone)]
pub struct Dispinfo {
    pub power: u8,
    pub startpos: Vec3R,
    pub elevation: Ratio,
    pub subdiv: bool,
    pub normals: Vec<Vec<Vec3R>>,
    pub distances: Vec<Vec<Ratio>>,
    pub offsets: Vec<Vec<Vec3R>>,
    pub alphas: Vec<Vec<u8>>,
}

impl Dispinfo {
    /// The number of grid cells along each side: `2^power`.
    pub open spec fn spec_cells(self) -> int {
        if self.power == 2 {
            4
        } else if self.power == 3 {
            8
        } else {
            16
        }
    }

    /// The number of grid points along each side: `2^power + 1`.
    pub open spec fn spec_side(self) -> int {
        self.spec_cells() + 1
    }

    pub open spec fn wf(self) -> bool {
        &&& 2 <= self.power <= 4
        &&& self.startpos.wf()
        &&& self.elevation.wf()
        &&& grid3_wf(self.normals@, self.spec_side())
        &&& gridr_wf(self.distances@, self.spec_side())
        &&& grid3_wf(self.offsets@, self.spec_side())
        &&& gridu_wf(self.alphas@, self.spec_side())
    }

    /// The number of grid cells along each side, as executed.
    pub fn cells(&self) -> (r: usize)
        requires
            2 <= self.power <= 4,
        ensures
            r as int == self.spec_cells(),
            1 <= r <= 16,
    {
        if self.power == 2 {
            4
        } else if self.power == 3 {
            8
        } else {
            16
        }
    }
}

/// Mathematical value of one emitted vertex.
pub ghost struct MeshVertexS {
    pub position: Vec3S,
    pub normal: Vec3S,
    pub u: RatS,
    pub v: RatS,
    pub alpha: RatS,
}

/// One emitted vertex: position, repaired normal, texture coordinates, and
/// the alpha value scaled to the unit range.
#[derive(Clone, Copy, Debug, PartialEq, Eq, Structural)]
pub struct MeshVertex {
    pub position: Vec3R,
    pub normal: Vec3R,
    pub u: Ratio,
    pub v: Ratio,
    pub alpha: Ratio,
}

impl View for MeshVertex {
    type V = MeshVertexS;

    open spec fn view(&self) -> MeshVertexS {
        MeshVertexS {
            position: self.position@,
            normal: self.normal@,
            u: self.u@,
            v: self.v@,
            alpha: self.alpha@,
        }
    }
}

impl MeshVertex {
    pub open spec fn wf(self) -> bool {
        self.position.wf() && self.normal.wf() && self.u.wf() && self.v.wf() && self.alpha.wf()
    }
}

/// All inputs of one face's tessellation, as values.
pub ghost struct DispGridS {
    pub cells: int,
    pub start_point: Vec3S,
    pub row_point: Vec3S,
    pub opposite_point: Vec3S,
    pub column_point: Vec3S,
    pub normals: Seq<Seq<Vec3S>>,
    pub distances: Seq<Seq<RatS>>,
    pub offsets: Seq<Seq<Vec3S>>,
    pub alphas: Seq<Seq<int>>,
    pub elevation: RatS,
    pub uaxis: UVAxis,
    pub vaxis: UVAxis,
}

/// The grid-point offset of each of the six vertices a cell emits: two
/// triangles with a fixed diagonal split, `(r,c) (r,c+1) (r+1,c)` and
/// `(r+1,c) (r,c+1) (r+1,c+1)`, in the emission order of the reference
/// renderer.
pub open spec fn role_cell(role: int) -> (int, int) {
    if role == 0 {
        (0, 0)
    } else if role == 1 {
        (0, 1)
    } else if role == 2 {
        (1, 0)
    } else if role == 3 {
        (1, 0)
    } else if role == 4 {
        (0, 1)
    } else {
        (1, 1)
    }
}

/// The `k`-th emitted vertex of a tessellation: vertex `k % 6` of cell
/// `k / 6`, whose position is the bilinear base point moved by the stored
/// offset plus `normal * (distance + elevation)`, with texture coordinates
/// projected from the final position and the alpha scaled to `0..1`.
pub open spec fn cell_vertex_spec(d: DispGridS, k: int) -> Result<MeshVertexS, MeshError> {
    let cell = k / 6;
    let role = k % 6;
    let row = cell / d.cells;
    let col = cell % d.cells;
    let gr = row + role_cell(role).0;
    let gc = col + role_cell(role).1;
    match disp_point_spec(
        gr,
        gc,
        d.cells,
        d.start_point,
        d.row_point,
        d.opposite_point,
        d.column_point,
    ) {
        Err(e) => Err(e),
        Ok(base) => if !vs_add_ok(base, d.offsets[gr][gc]) {
            Err(MeshError::Overflow)
        } else {
            let p1 = vs_add(base, d.offsets[gr][gc]);
            if !rs_add_ok(d.distances[gr][gc], d.elevation) {
                Err(MeshError::Overflow)
            } else {
                let de = rs_add(d.distances[gr][gc], d.elevation);
                let nrm = d.normals[gr][gc];
                if !vs_scale_ok(nrm, de) {
                    Err(MeshError::Overflow)
                } else {
                    let dv = vs_scale(nrm, de);
                    if !vs_add_ok(p1, dv) {
                        Err(MeshError::Overflow)
                    } else {
                        let pos = vs_add(p1, dv);
                        match uv_point_spec(d.uaxis, d.vaxis, pos) {
                            Err(e) => Err(e),
                            Ok(uv) => Ok(
                                MeshVertexS {
                                    position: pos,
                                    normal: nrm,
                                    u: uv.0,
                                    v: uv.1,
                                    alpha: norm2(d.alphas[gr][gc], 255),
                                },
                            ),
                        }
                    }
                }
            }
        },
    }
}

/// The first malformed emitted vertex, in emission order, if any.
pub open spec fn first_vertex_err(d: DispGridS, k: int, total: int) -> Option<MeshError>
    decreases total - k,
{
    if k >= total {
        None
    } else {
        match cell_vertex_spec(d, k) {
            Err(e) => Some(e),
            Ok(_) => first_vertex_err(d, k + 1, total),
        }
    }
}

/// The tessellation inputs assembled from executable values.
pub open spec fn disp_grid_view(
    disp: Dispinfo,
    start_point: Vec3R,
    row_point: Vec3R,
    opposite_point: Vec3R,
    column_point: Vec3R,
    uaxis: UVAxis,
    vaxis: UVAxis,
) -> DispGridS {
    DispGridS {
        cells: disp.spec_cells(),
        start_point: start_point@,
        row_point: row_point@,
        opposite_point: opposite_point@,
        column_point: column_point@,
        normals: grid3_view(disp.normals@),
        distances: gridr_view(disp.distances@),
        offsets: grid3_view(disp.offsets@),
        alphas: gridu_view(disp.alphas@),
        elevation: disp.elevation@,
        uaxis: uaxis,
        vaxis: vaxis,
    }
}

/// A dividend below `b * m` has quotient below `b`.
pub proof fn lemma_div_bound(x: int, m: int, b: int)
    requires
        m > 0,
        0 <= x < b * m,
    ensures
        0 <= x / m < b,
{
    lemma_fundamental_div_mod_local(x, m);
    vstd::arithmetic::div_mod::lemma_mod_bound(x, m);
    if x / m >= b {
        assert(m * (x / m) >= m * b) by (nonlinear_arith)
            requires
                m > 0,
                x / m >= b,
        ;
        assert(m * b == b * m) by (nonlinear_arith);
    }
    if x / m < 0 {
        assert(m * (x / m) <= -m) by (nonlinear_arith)
            requires
                m > 0,
                x / m <= -1,
        ;
    }
}

proof fn lemma_fundamental_div_mod_local(x: int, m: int)
    requires
        m != 0,
    ensures
        x == m * (x / m) + x % m,
{
    vstd::arithmetic::div_mod::lemma_fundamental_div_mod(x, m);
}

/// One emitted vertex, as executed.
fn cell_vertex(
    disp: &Dispinfo,
    start_point: &Vec3R,
    row_point: &Vec3R,
    opposite_point: &Vec3R,
    column_point: &Vec3R,
    uaxis: &UVAxis,
    vaxis: &UVAxis,
    k: usize,
) -> (r: Result<MeshVertex, MeshError>)
    requires
        disp.wf(),
        start_point.wf(),
        row_point.wf(),
        opposite_point.wf(),
        column_point.wf(),
        uaxis.wf(),
        vaxis.wf(),
        k < 6 * disp.spec_cells() * disp.spec_cells(),
    ensures
        ({
            let d = disp_grid_view(
                *disp,
                *start_point,
                *row_point,
                *opposite_point,
                *column_point,
                *uaxis,
                *vaxis,
            );
            match r {
                Ok(mv) => mv.wf() && cell_vertex_spec(d, k as int) == Ok::<MeshVertexS, MeshError>(
                    mv@,
                ),
                Err(e) => cell_vertex_spec(d, k as int) == Err::<MeshVertexS, MeshError>(e),
            }
        }),
{
    let ghost d = disp_grid_view(
        *disp,
        *start_point,
        *row_point,
        *opposite_point,
        *column_point,
        *uaxis,
        *vaxis,
    );
    let cells = disp.cells();
    let cell = k / 6;
    let role = k % 6;
    proof {
        let cc = disp.spec_cells() * disp.spec_cells();
        assert((k as int) < cc * 6) by (nonlinear_arith)
            requires
                (k as int) < (6 * disp.spec_cells() * disp.spec_cells()),
                cc == disp.spec_cells() * disp.spec_cells(),
        ;
        lemma_div_bound(k as int, 6, cc);
        vstd::arithmetic::div_mod::lemma_mod_bound(k as int, 6);
    }
    let row = cell / cells;
    let col = cell % cells;
    proof {
        lemma_div_bound(cell as int, cells as int, cells as int);
        vstd::arithmetic::div_mod::lemma_mod_bound(cell as int, cells as int);
    }
    let (dr, dc): (usize, usize) = if role == 0 {
        (0, 0)
    } else if role == 1 {
        (0, 1)
    } else if role == 2 {
        (1, 0)
    } else if role == 3 {
        (1, 0)
    } else if role == 4 {
        (0, 1)
    } else {
        (1, 1)
    };
    let gr = row + dr;
    let gc = col + dc;
    proof {
        assert(gr as int == cell as int / cells as int + role_cell(k as int % 6).0);
        assert(gc as int == cell as int % cells as int + role_cell(k as int % 6).1);
        assert(gr <= cells);
        assert(gc <= cells);
        assert(d.normals[gr as int][gc as int] == disp.normals@[gr as int]@[gc as int]@);
        assert(d.distances[gr as int][gc as int] == disp.distances@[gr as int]@[gc as int]@);
        assert(d.offsets[gr as int][gc as int] == disp.offsets@[gr as int]@[gc as int]@);
        assert(d.alphas[gr as int][gc as int] == disp.alphas@[gr as int]@[gc as int] as int);
    }
    let base = match get_disp_point(gr, gc, cells, start_point, row_point, opposite_point,
        column_point) {
        Ok(p) => p,
        Err(e) => {
            return Err(e);
        },
    };
    let p1 = match base.add(&disp.offsets[gr][gc]) {
        Some(p) => p,
        None => {
            return Err(MeshError::Overflow);
        },
    };
    let de = match disp.distances[gr][gc].add(&disp.elevation) {
        Some(x) => x,
        None => {
            return Err(MeshError::Overflow);
        },
    };
    let nrm = disp.normals[gr][gc];
    let dv = match nrm.scale(&de) {
        Some(v) => v,
        None => {
            return Err(MeshError::Overflow);
        },
    };
    let pos = match p1.add(&dv) {
        Some(p) => p,
        None => {
            return Err(MeshError::Overflow);
        },
    };
    let uv = match get_uv_point(uaxis, vaxis, &pos) {
        Ok(uv) => uv,
        Err(e) => {
            return Err(e);
        },
    };
    let alpha = Ratio::new(disp.alphas[gr][gc] as i64, 255);
    Ok(MeshVertex { position: pos, normal: nrm, u: uv.0, v: uv.1, alpha })
}

/// Expands one displacement face into its triangle list: six vertices per
/// grid cell (two triangles with a fixed diagonal split), `2^power` cells
/// along each side. The emitted list is exactly `cell_vertex_spec` at every
/// index, or the first malformed vertex in emission order is reported and
/// the face can be skipped.
pub fn tessellate(
    disp: &Dispinfo,
    start_point: &Vec3R,
    row_point: &Vec3R,
    opposite_point: &Vec3R,
    column_point: &Vec3R,
    uaxis: &UVAxis,
    vaxis: &UVAxis,
) -> (r: Result<Vec<MeshVertex>, MeshError>)
    requires
        disp.wf(),
        start_point.wf(),
        row_point.wf(),
        opposite_point.wf(),
        column_point.wf(),
        uaxis.wf(),
        vaxis.wf(),
    ensures
        ({
            let d = disp_grid_view(
                *disp,
                *start_point,
                *row_point,
                *opposite_point,
                *column_point,
                *uaxis,
                *vaxis,
            );
            let total = 6 * d.cells * d.cells;
            match r {
                Ok(out) => {
                    &&& first_vertex_err(d, 0, total) is None
                    &&& out@.len() == total
                    &&& forall|k: int|
                        0 <= k < total ==> #[trigger] cell_vertex_spec(d, k) == Ok::<
                            MeshVertexS,
                            MeshError,
                        >(out@[k]@)
                    &&& forall|k: int| 0 <= k < total ==> (#[trigger] out@[k]).wf()
                },
                Err(e) => first_vertex_err(d, 0, total) == Some(e),
            }
        }),
{
    let ghost d = disp_grid_view(
        *disp,
        *start_point,
        *row_point,
        *opposite_point,
        *column_point,
        *uaxis,
        *vaxis,
    );
    let cells = disp.cells();
    proof {
        assert((6 * cells as int) * cells as int <= 1536) by (nonlinear_arith)
            requires
                1 <= cells as int <= 16,
        ;
    }
    let total = 6 * cells * cells;
    let ghost total_s = 6 * d.cells * d.cells;
    let mut out: Vec<MeshVertex> = Vec::new();
    let mut k: usize = 0;
    while k < total
        invariant
            disp.wf(),
            start_point.wf(),
            row_point.wf(),
            opposite_point.wf(),
            column_point.wf(),
            uaxis.wf(),
            vaxis.wf(),
            d == disp_grid_view(
                *disp,
                *start_point,
                *row_point,
                *opposite_point,
                *column_point,
                *uaxis,
                *vaxis,
            ),
            cells as int == d.cells,
            total == 6 * cells * cells,
            total_s == 6 * d.cells * d.cells,
            k <= total,
            out@.len() == k,
            first_vertex_err(d, 0, total_s) == first_vertex_err(d, k as int, total_s),
            forall|t: int|
                0 <= t < k ==> #[trigger] cell_vertex_spec(d, t) == Ok::<MeshVertexS, MeshError>(
                    out@[t]@,
                ),
            forall|t: int| 0 <= t < k ==> (#[trigger] out@[t]).wf(),
        decreases total - k,
    {
        match cell_vertex(disp, start_point, row_point, opposite_point, column_point, uaxis,
            vaxis, k) {
            Ok(mv) => {
                out.push(mv);
            },
            Err(e) => {
                return Err(e);
            },
        }
        k += 1;
    }
    Ok(out)
}

/// The first loop position whose vertex lies within unit distance of the
/// declared start position — the loop's starting point and winding are not
/// fixed by the input format, so the start corner is located by proximity.
pub open spec fn find_corner_spec(
    verts: Seq<Vec3S>,
    ring: Seq<usize>,
    sp: Vec3S,
    i: int,
) -> Result<int, MeshError>
    decreases ring.len() - i,
{
    if i < 0 || i >= ring.len() {
        Err(MeshError::CornerMismatch)
    } else {
        let v = verts[ring[i] as int];
        if !vs_sub_ok(v, sp) {
            Err(MeshError::Overflow)
        } else {
            let w = vs_sub(v, sp);
            if !vs_dot_ok(w, w) {
                Err(MeshError::Overflow)
            } else if vs_dot(w, w).n < vs_dot(w, w).d {
                Ok(i)
            } else {
                find_corner_spec(verts, ring, sp, i + 1)
            }
        }
    }
}

/// Locates the quad corner matching the displacement's start position
/// within tolerance (squared distance below one), as executed. When no
/// vertex matches, the face's displacement is rejected.
pub fn find_start_corner(verts: &Vec<Vec3R>, ring: &Vec<usize>, startpos: &Vec3R) -> (r: Result<
    usize,
    MeshError,
>)
    requires
        forall|t: int| 0 <= t < verts@.len() ==> (#[trigger] verts@[t]).wf(),
        forall|j: int| 0 <= j < ring@.len() ==> (#[trigger] ring@[j]) < verts@.len(),
        startpos.wf(),
    ensures
        match r {
            Ok(i) => find_corner_spec(crate::clip::verts_view(verts@), ring@, startpos@, 0)
                == Ok::<int, MeshError>(i as int) && i < ring@.len(),
            Err(e) => find_corner_spec(crate::clip::verts_view(verts@), ring@, startpos@, 0)
                == Err::<int, MeshError>(e),
        },
{
    let ghost vv = crate::clip::verts_view(verts@);
    let mut i: usize = 0;
    while i < ring.len()
        invariant
            vv == crate::clip::verts_view(verts@),
            forall|t: int| 0 <= t < verts@.len() ==> (#[trigger] verts@[t]).wf(),
            forall|j: int| 0 <= j < ring@.len() ==> (#[trigger] ring@[j]) < verts@.len(),
            startpos.wf(),
            i <= ring@.len(),
            find_corner_spec(vv, ring@, startpos@, 0) == find_corner_spec(
                vv,
                ring@,
                startpos@,
                i as int,
            ),
        decreases ring@.len() - i,
    {
        let v = verts[ring[i]];
        proof {
            assert(v@ == vv[ring@[i as int] as int]);
        }
        let w = match v.sub(startpos) {
            Some(w) => w,
            None => {
                return Err(MeshError::Overflow);
            },
        };
        let nsq = match w.dot(&w) {
            Some(x) => x,
            None => {
                return Err(MeshError::Overflow);
            },
        };
        if nsq.n < nsq.d {
            return Ok(i);
        }
        i += 1;
    }
    Err(MeshError::CornerMismatch)
}

/// UV round trip: with a unit texture scale and a zero translation, a
/// position lying at parameter `k` along a texture axis — that is,
/// `dot(p, dir) = k * dot(dir, dir)` — projects to exactly `k` whenever the
/// projection succeeds. The corners of a quad whose edge directions are the
/// axes themselves and whose start corner is orthogonal to both edges lie
/// at parameters 0 and 1, so they project to coordinates in {0, 1}.
pub proof fn lemma_uv_round_trip(dir: Vec3S, p: Vec3S, k: int)
    requires
        dir.d > 0,
        p.d > 0,
        vs_dot(dir, dir).n != 0,
        rs_eq(vs_dot(p, dir), RatS { n: k * vs_dot(dir, dir).n, d: vs_dot(dir, dir).d }),
    ensures
        uv_coord_spec(dir, rs_int(1), rs_int(0), p) matches Ok(u) ==> rs_eq(u, rs_int(k)),
{
    match uv_coord_spec(dir, rs_int(1), rs_int(0), p) {
        Err(_) => {},
        Ok(u) => {
            let a = vs_dot(p, dir);
            let b = vs_dot(dir, dir);
            assert(p.d * dir.d > 0) by (nonlinear_arith)
                requires
                    p.d > 0,
                    dir.d > 0,
            ;
            assert(dir.d * dir.d > 0) by (nonlinear_arith)
                requires
                    dir.d > 0,
            ;
            lemma_norm2_eq(p.x * dir.x + p.y * dir.y + p.z * dir.z, p.d * dir.d);
            lemma_norm2_eq(dir.x * dir.x + dir.y * dir.y + dir.z * dir.z, dir.d * dir.d);
            assert(a.d > 0 && b.d > 0);
            // the hypothesis in cross-multiplied form
            assert(a.n * b.d == (k * b.n) * a.d);
            let q1 = rs_div(a, b);
            if b.n > 0 {
                assert(a.d * b.n > 0) by (nonlinear_arith)
                    requires
                        a.d > 0,
                        b.n > 0,
                ;
                lemma_norm2_eq(a.n * b.d, a.d * b.n);
                let raw = RatS { n: a.n * b.d, d: a.d * b.n };
                assert(rs_eq(raw, rs_int(k))) by (nonlinear_arith)
                    requires
                        raw == (RatS { n: a.n * b.d, d: a.d * b.n }),
                        a.n * b.d == (k * b.n) * a.d,
                ;
                lemma_rs_eq_trans(q1, raw, rs_int(k));
            } else {
                assert(-(a.d * b.n) > 0) by (nonlinear_arith)
                    requires
                        a.d > 0,
                        b.n < 0,
                ;
                lemma_norm2_eq(-(a.n * b.d), -(a.d * b.n));
                let raw = RatS { n: -(a.n * b.d), d: -(a.d * b.n) };
                assert(rs_eq(raw, rs_int(k))) by (nonlinear_arith)
                    requires
                        raw == (RatS { n: -(a.n * b.d), d: -(a.d * b.n) }),
                        a.n * b.d == (k * b.n) * a.d,
                ;
                lemma_rs_eq_trans(q1, raw, rs_int(k));
            }
            assert(q1.d > 0);
            // dividing by the unit scale and adding the zero translation
            // keep the value
            let q2 = rs_div(q1, rs_int(1));
            lemma_norm2_eq(q1.n * 1, q1.d * 1);
            assert(rs_eq(q2, q1));
            lemma_rs_eq_trans(q2, q1, rs_int(k));
            assert(u == rs_add(q2, rs_int(0)));
            lemma_norm2_eq(q2.n * 1 + 0 * q2.d, q2.d * 1);
            assert(rs_eq(u, q2));
            lemma_rs_eq_trans(u, q2, rs_int(k));
        },
    }
}

/// A successful operation on vectors with positive denominators yields a
/// positive denominator.
proof fn lemma_sub_pos(a: Vec3S, b: Vec3S)
    requires
        a.d > 0,
        b.d > 0,
    ensures
        vs_sub(a, b).d > 0,
{
    assert(a.d * b.d > 0) by (nonlinear_arith)
        requires
            a.d > 0,
            b.d > 0,
    ;
    lemma_norm4_eq(a.x * b.d - b.x * a.d, a.y * b.d - b.y * a.d, a.z * b.d - b.z * a.d, a.d * b.d);
}

proof fn lemma_add_pos(a: Vec3S, b: Vec3S)
    requires
        a.d > 0,
        b.d > 0,
    ensures
        vs_add(a, b).d > 0,
{
    assert(a.d * b.d > 0) by (nonlinear_arith)
        requires
            a.d > 0,
            b.d > 0,
    ;
    lemma_norm4_eq(a.x * b.d + b.x * a.d, a.y * b.d + b.y * a.d, a.z * b.d + b.z * a.d, a.d * b.d);
}

proof fn lemma_scale_pos(a: Vec3S, t: RatS)
    requires
        a.d > 0,
        t.d > 0,
    ensures
        vs_scale(a, t).d > 0,
{
    assert(a.d * t.d > 0) by (nonlinear_arith)
        requires
            a.d > 0,
            t.d > 0,
    ;
    lemma_norm4_eq(a.x * t.n, a.y * t.n, a.z * t.n, a.d * t.d);
}

/// A successful interpolation of vectors with positive denominators has a
/// positive denominator.
proof fn lemma_lerp_pos(a: Vec3S, b: Vec3S, t: RatS)
    requires
        a.d > 0,
        b.d > 0,
        t.d > 0,
    ensures
        lerp_spec(a, b, t) matches Ok(v) ==> v.d > 0,
{
    match lerp_spec(a, b, t) {
        Err(_) => {},
        Ok(v) => {
            lemma_sub_pos(b, a);
            lemma_scale_pos(vs_sub(b, a), t);
            lemma_add_pos(a, vs_scale(vs_sub(b, a), t));
        },
    }
}

/// A successful base-point interpolation has a positive denominator.
proof fn lemma_disp_point_pos(
    row: int,
    column: int,
    cells: int,
    s: Vec3S,
    r: Vec3S,
    o: Vec3S,
    c: Vec3S,
)
    requires
        cells > 0,
        s.d > 0,
        r.d > 0,
        o.d > 0,
        c.d > 0,
    ensures
        disp_point_spec(row, column, cells, s, r, o, c) matches Ok(v) ==> v.d > 0,
{
    let fr = norm2(row, cells);
    let fc = norm2(column, cells);
    lemma_norm2_eq(row, cells);
    lemma_norm2_eq(column, cells);
    lemma_lerp_pos(s, r, fr);
    lemma_lerp_pos(c, o, fr);
    match lerp_spec(s, r, fr) {
        Err(_) => {},
        Ok(p1) => match lerp_spec(c, o, fr) {
            Err(_) => {},
            Ok(p2) => {
                lemma_lerp_pos(p1, p2, fc);
            },
        },
    }
}

/// Flat-quad round trip: at a grid point whose stored offset is the zero
/// vector and whose stored distance — like the elevation — is zero, the
/// emitted vertex position equals the undisplaced bilinear base point of
/// the quad exactly. On a displacement whose whole grid is flat, the mesh
/// therefore reproduces the quad's own subdivision.
pub proof fn lemma_flat_displacement(d: DispGridS, k: int)
    requires
        d.cells > 0,
        d.start_point.d > 0,
        d.row_point.d > 0,
        d.opposite_point.d > 0,
        d.column_point.d > 0,
        d.elevation.n == 0,
        d.elevation.d > 0,
        0 <= k < 6 * d.cells * d.cells,
        forall|i: int, j: int|
            0 <= i <= d.cells && 0 <= j <= d.cells ==> vs_is_zero(#[trigger] d.offsets[i][j])
                && d.offsets[i][j].d > 0,
        forall|i: int, j: int|
            0 <= i <= d.cells && 0 <= j <= d.cells ==> (#[trigger] d.distances[i][j]).n == 0
                && d.distances[i][j].d > 0,
        forall|i: int, j: int|
            0 <= i <= d.cells && 0 <= j <= d.cells ==> (#[trigger] d.normals[i][j]).d > 0,
    ensures
        cell_vertex_spec(d, k) matches Ok(mv) ==> ({
            let cell = k / 6;
            let role = k % 6;
            let gr = cell / d.cells + role_cell(role).0;
            let gc = cell % d.cells + role_cell(role).1;
            disp_point_spec(
                gr,
                gc,
                d.cells,
                d.start_point,
                d.row_point,
                d.opposite_point,
                d.column_point,
            ) matches Ok(base) && vs_eq(mv.position, base)
        }),
{
    let cell = k / 6;
    let role = k % 6;
    let cc = d.cells * d.cells;
    assert(k < cc * 6) by (nonlinear_arith)
        requires
            k < 6 * d.cells * d.cells,
            cc == d.cells * d.cells,
    ;
    lemma_div_bound(k, 6, cc);
    vstd::arithmetic::div_mod::lemma_mod_bound(k, 6);
    lemma_div_bound(cell, d.cells, d.cells);
    vstd::arithmetic::div_mod::lemma_mod_bound(cell, d.cells);
    let gr = cell / d.cells + role_cell(role).0;
    let gc = cell % d.cells + role_cell(role).1;
    assert(0 <= gr <= d.cells && 0 <= gc <= d.cells);
    assert(vs_is_zero(d.offsets[gr][gc]) && d.offsets[gr][gc].d > 0);
    assert(d.distances[gr][gc].n == 0 && d.distances[gr][gc].d > 0);
    assert(d.normals[gr][gc].d > 0);
    match cell_vertex_spec(d, k) {
        Err(_) => {},
        Ok(mv) => {
            match disp_point_spec(
                gr,
                gc,
                d.cells,
                d.start_point,
                d.row_point,
                d.opposite_point,
                d.column_point,
            ) {
                Err(_) => {
                    assert(false);
                },
                Ok(base) => {
                    lemma_disp_point_pos(
                        gr,
                        gc,
                        d.cells,
                        d.start_point,
                        d.row_point,
                        d.opposite_point,
                        d.column_point,
                    );
                    let off = d.offsets[gr][gc];
                    let p1 = vs_add(base, off);
                    lemma_add_zero(base, off);
                    let de = rs_add(d.distances[gr][gc], d.elevation);
                    let dd = d.distances[gr][gc].d * d.elevation.d;
                    assert(d.distances[gr][gc].d * d.elevation.d > 0) by (nonlinear_arith)
                        requires
                            d.distances[gr][gc].d > 0,
                            d.elevation.d > 0,
                    ;
                    assert(dd > 0);
                    assert(d.distances[gr][gc].n * d.elevation.d + d.elevation.n * d.distances[gr][gc].d
                        == 0) by (nonlinear_arith)
                        requires
                            d.distances[gr][gc].n == 0,
                            d.elevation.n == 0,
                    ;
                    lemma_norm2_eq(
                        d.distances[gr][gc].n * d.elevation.d + d.elevation.n * d.distances[gr][gc].d,
                        d.distances[gr][gc].d * d.elevation.d,
                    );
                    assert(rs_eq(de, RatS { n: 0, d: dd }));
                    assert(de.n * dd == 0 * de.d);
                    assert(de.n == 0) by (nonlinear_arith)
                        requires
                            de.n * dd == 0,
                            dd > 0,
                    ;
                    let nrm = d.normals[gr][gc];
                    let dv = vs_scale(nrm, de);
                    lemma_scale_zero(nrm, de);
                    lemma_add_zero(p1, dv);
                    lemma_vs_eq_trans(vs_add(p1, dv), p1, base);
                    assert(mv.position == vs_add(p1, dv));
                },
            }
        },
    }
}

} // verus!
