//! Convex-polyhedron half-space clipping.
//!
//! A polyhedron is an ordered vertex list plus tagged face loops. One clip
//! classifies every vertex against the cutting plane, keeps faces with no
//! outside vertex, drops faces with no inside vertex, cuts mixed faces along
//! the plane, and stitches the recorded crossing edges into one new cap face.
//!
//! The classification follows the sign of `dot(vertex - plane_point, normal)`
//! with zero counted as inside, so a vertex exactly on the plane is kept.
//! Every executable step mirrors a spec-level function exactly, including the
//! order in which overflow is detected, so the whole clip is deterministic
//! down to its error cases. Conditions the reference algorithm left to
//! unchecked lookups — crossing edges that do not stitch into a single closed
//! loop of at least three vertices — are explicit errors here, reported per
//! brush instead of aborting the whole map.

use crate::rational::RatS;
use crate::vector::{
    vs_add, vs_add_ok, vs_dot, vs_dot_ok, vs_scale, vs_scale_ok, vs_sub, vs_sub_ok, vss_wf, Vec3R,
    Vec3S,
};
use crate::rational::{rs_div, rs_div_ok};
use vstd::arithmetic::div_mod::lemma_fundamental_div_mod;
use vstd::prelude::*;

verus! {

/// Why a clip was rejected; the brush that caused it can be skipped while the
/// rest of the map loads.
#[derive(Clone, Copy, Debug, PartialEq, Eq, Structural)]
pub enum ClipError {
    /// An intermediate product left the representable range.
    Overflow,
    /// A face holds both inside and outside vertices but no adjacent
    /// outside-to-inside pair, so no crossing edge can be found.
    NoBoundaryEdge,
    /// A crossing edge was parallel to the cutting plane.
    ParallelCrossing,
    /// The recorded cap edges do not stitch into one closed loop that uses
    /// every edge.
    UnstitchableCap,
    /// The stitched cap loop has fewer than three vertices.
    DegenerateCap,
}

/// Mathematical value of a polyhedron.
pub ghost struct PolyS<T> {
    pub vertices: Seq<Vec3S>,
    pub faces: Seq<(T, Seq<usize>)>,
}

/// A polyhedron: vertices, and faces given as a payload plus a closed loop of
/// vertex indices.
#[derive(Debug)]
pub struct Polyhedron<T> {
    pub vertices: Vec<Vec3R>,
    pub faces: Vec<(T, Vec<usize>)>,
}

/// The values of a vertex list.
pub open spec fn verts_view(v: Seq<Vec3R>) -> Seq<Vec3S> {
    Seq::new(v.len(), |i: int| v[i]@)
}

/// The values of a face list.
pub open spec fn faces_view<T>(f: Seq<(T, Vec<usize>)>) -> Seq<(T, Seq<usize>)> {
    Seq::new(f.len(), |i: int| (f[i].0, f[i].1@))
}

impl<T> View for Polyhedron<T> {
    type V = PolyS<T>;

    open spec fn view(&self) -> PolyS<T> {
        PolyS { vertices: verts_view(self.vertices@), faces: faces_view(self.faces@) }
    }
}

/// A face loop is closed (three or more vertices) and indexes only existing
/// vertices.
pub open spec fn ring_ok(ring: Seq<usize>, nverts: nat) -> bool {
    ring.len() >= 3 && forall|j: int| 0 <= j < ring.len() ==> (#[trigger] ring[j]) < nverts
}

/// Well-formedness of a polyhedron value.
pub open spec fn poly_wf<T>(p: PolyS<T>) -> bool {
    &&& forall|i: int| 0 <= i < p.vertices.len() ==> vss_wf(#[trigger] p.vertices[i])
    &&& forall|i: int|
        0 <= i < p.faces.len() ==> ring_ok((#[trigger] p.faces[i]).1, p.vertices.len())
}

impl<T> Polyhedron<T> {
    pub open spec fn wf(self) -> bool {
        poly_wf(self@)
    }
}

/// Three-way sign of a scalar value.
pub open spec fn sign_of(a: RatS) -> int {
    if a.n > 0 {
        1int
    } else if a.n < 0 {
        -1int
    } else {
        0int
    }
}

/// Plane-side classification of one vertex: the sign of
/// `dot(v - p, n)`. Positive means outside (to be removed); zero, a vertex
/// exactly on the plane, counts as inside and is kept. Absent on overflow.
pub open spec fn side_calc(v: Vec3S, p: Vec3S, n: Vec3S) -> Option<int> {
    if vs_sub_ok(v, p) && vs_dot_ok(vs_sub(v, p), n) {
        Some(sign_of(vs_dot(vs_sub(v, p), n)))
    } else {
        None
    }
}

/// Classification of every vertex of a face loop; absent if any vertex
/// overflows.
pub open spec fn ring_sides(verts: Seq<Vec3S>, ring: Seq<usize>, p: Vec3S, n: Vec3S) -> Option<
    Seq<int>,
> {
    if forall|j: int|
        0 <= j < ring.len() ==> (#[trigger] side_calc(verts[ring[j] as int], p, n)) is Some {
        Some(Seq::new(ring.len(), |j: int| side_calc(verts[ring[j] as int], p, n)->Some_0))
    } else {
        None
    }
}

pub open spec fn has_outside(s: Seq<int>) -> bool {
    exists|j: int| 0 <= j < s.len() && #[trigger] s[j] > 0
}

pub open spec fn has_inside(s: Seq<int>) -> bool {
    exists|j: int| 0 <= j < s.len() && #[trigger] s[j] <= 0
}

/// The exact line–plane intersection, mirrored step by step by the
/// executable function: `Ok(None)` when the line is parallel to the plane,
/// otherwise the point `line_point + line_normal * t` with
/// `t = dot(plane_point - line_point, n) / dot(line_normal, n)`.
pub open spec fn lpi_spec(lp: Vec3S, ln: Vec3S, pp: Vec3S, pn: Vec3S) -> Result<
    Option<Vec3S>,
    ClipError,
> {
    if !vs_sub_ok(pp, lp) {
        Err(ClipError::Overflow)
    } else if !vs_dot_ok(vs_sub(pp, lp), pn) {
        Err(ClipError::Overflow)
    } else if !vs_dot_ok(ln, pn) {
        Err(ClipError::Overflow)
    } else {
        let dividend = vs_dot(vs_sub(pp, lp), pn);
        let divisor = vs_dot(ln, pn);
        if divisor.n == 0 {
            Ok(None)
        } else if !rs_div_ok(dividend, divisor) {
            Err(ClipError::Overflow)
        } else if !vs_scale_ok(ln, rs_div(dividend, divisor)) {
            Err(ClipError::Overflow)
        } else if !vs_add_ok(lp, vs_scale(ln, rs_div(dividend, divisor))) {
            Err(ClipError::Overflow)
        } else {
            Ok(Some(vs_add(lp, vs_scale(ln, rs_div(dividend, divisor)))))
        }
    }
}

/// The value of an intersection result.
pub open spec fn isect_view(r: Result<Option<Vec3R>, ClipError>) -> Result<
    Option<Vec3S>,
    ClipError,
> {
    match r {
        Ok(Some(v)) => Ok(Some(v@)),
        Ok(None) => Ok(None),
        Err(e) => Err(e),
    }
}

/// Intersection of the line `line_point + t * line_normal` with the plane
/// through `plane_point` with normal `plane_normal`. `None` when the line is
/// parallel to the plane (including a line inside the plane).
pub fn line_plane_intersection(
    line_point: &Vec3R,
    line_normal: &Vec3R,
    plane_point: &Vec3R,
    plane_normal: &Vec3R,
) -> (r: Result<Option<Vec3R>, ClipError>)
    requires
        line_point.wf(),
        line_normal.wf(),
        plane_point.wf(),
        plane_normal.wf(),
    ensures
        isect_view(r) == lpi_spec(line_point@, line_normal@, plane_point@, plane_normal@),
        r matches Ok(Some(v)) ==> v.wf(),
{
    let w = match plane_point.sub(line_point) {
        Some(w) => w,
        None => {
            return Err(ClipError::Overflow);
        },
    };
    let dividend = match w.dot(plane_normal) {
        Some(x) => x,
        None => {
            return Err(ClipError::Overflow);
        },
    };
    let divisor = match line_normal.dot(plane_normal) {
        Some(x) => x,
        None => {
            return Err(ClipError::Overflow);
        },
    };
    if divisor.is_zero() {
        return Ok(None);
    }
    let t = match dividend.div(&divisor) {
        Some(x) => x,
        None => {
            return Err(ClipError::Overflow);
        },
    };
    let step = match line_normal.scale(&t) {
        Some(x) => x,
        None => {
            return Err(ClipError::Overflow);
        },
    };
    match line_point.add(&step) {
        Some(x) => Ok(Some(x)),
        None => Err(ClipError::Overflow),
    }
}

/// The segment–plane intersection the clipper uses: classify both endpoints,
/// intersect only when the classifications differ.
pub open spec fn lspi_spec(a: Vec3S, b: Vec3S, pp: Vec3S, pn: Vec3S) -> Result<
    Option<Vec3S>,
    ClipError,
> {
    match (side_calc(a, pp, pn), side_calc(b, pp, pn)) {
        (Some(s1), Some(s2)) => if s1 == s2 {
            Ok(None)
        } else if !vs_sub_ok(b, a) {
            Err(ClipError::Overflow)
        } else {
            lpi_spec(a, vs_sub(b, a), pp, pn)
        },
        _ => Err(ClipError::Overflow),
    }
}

/// Accumulated state while faces are clipped: the (growing) vertex list, the
/// surviving faces, and the directed crossing edges recorded for the cap.
pub ghost struct ClipAcc<T> {
    pub verts: Seq<Vec3S>,
    pub faces: Seq<(T, Seq<usize>)>,
    pub edges: Seq<(usize, usize)>,
}

/// The values of a side list.
pub open spec fn sides_view(s: Seq<i8>) -> Seq<int> {
    Seq::new(s.len(), |i: int| s[i] as int)
}

/// First position `j` (from `j0`) whose vertex is outside while its cyclic
/// successor is inside: the crossing where the loop leaves the kept half-space.
pub open spec fn find_entry(s: Seq<int>, j0: int) -> Option<int>
    decreases s.len() - j0,
{
    if j0 < 0 || j0 >= s.len() {
        None
    } else if s[j0] > 0 && s[(j0 + 1) % (s.len() as int)] <= 0 {
        Some(j0)
    } else {
        find_entry(s, j0 + 1)
    }
}

/// First step count `m` (from `m0`) at which the cyclic walk from `b` meets
/// an outside vertex again: where the loop re-enters the removed half-space.
pub open spec fn find_exit(s: Seq<int>, b: int, m0: int) -> int
    decreases s.len() - m0,
{
    if m0 >= s.len() {
        m0
    } else if s[(b + m0) % (s.len() as int)] > 0 {
        m0
    } else {
        find_exit(s, b, m0 + 1)
    }
}

/// First existing vertex with exactly this value, if any.
pub open spec fn find_vertex(verts: Seq<Vec3S>, v: Vec3S, i: int) -> Option<int>
    decreases verts.len() - i,
{
    if i < 0 || i >= verts.len() {
        None
    } else if verts[i] == v {
        Some(i)
    } else {
        find_vertex(verts, v, i + 1)
    }
}

/// Deduplication by exact value: reuse the index of an equal vertex, else
/// append.
pub open spec fn dedup(verts: Seq<Vec3S>, v: Vec3S) -> (Seq<Vec3S>, usize) {
    match find_vertex(verts, v, 0) {
        Some(i) => (verts, i as usize),
        None => (verts.push(v), verts.len() as usize),
    }
}

/// The inside run of a cut loop: `m` indices starting at position `b`.
pub open spec fn run_seq(ring: Seq<usize>, b: int, m: int) -> Seq<usize> {
    Seq::new(m as nat, |t: int| ring[(b + t) % (ring.len() as int)])
}

/// The crossing point of the segment from an outside vertex `a` to an inside
/// vertex `b`: its exact intersection with the plane.
pub open spec fn cross_point(a: Vec3S, b: Vec3S, p: Vec3S, n: Vec3S) -> Result<Vec3S, ClipError> {
    if !vs_sub_ok(b, a) {
        Err(ClipError::Overflow)
    } else {
        match lpi_spec(a, vs_sub(b, a), p, n) {
            Err(e) => Err(e),
            Ok(None) => Err(ClipError::ParallelCrossing),
            Ok(Some(v)) => Ok(v),
        }
    }
}

/// The target of the first recorded edge with this source, if any.
pub open spec fn edge_lookup(edges: Seq<(usize, usize)>, src: usize, i: int) -> Option<usize>
    decreases edges.len() - i,
{
    if i < 0 || i >= edges.len() {
        None
    } else if edges[i].0 == src {
        Some(edges[i].1)
    } else {
        edge_lookup(edges, src, i + 1)
    }
}

/// Cutting one mixed face: locate the entry crossing, walk the inside run to
/// the exit crossing, intersect both crossing segments, deduplicate the two
/// new points, record the directed cap edge, and emit the face with the two
/// new points in place of the removed run.
pub open spec fn mixed_step<T>(
    face: (T, Seq<usize>),
    verts: Seq<Vec3S>,
    edges: Seq<(usize, usize)>,
    p: Vec3S,
    n: Vec3S,
    s: Seq<int>,
) -> Result<(Seq<Vec3S>, Seq<(usize, usize)>, (T, Seq<usize>)), ClipError> {
    let ring = face.1;
    let k = ring.len() as int;
    match find_entry(s, 0) {
        None => Err(ClipError::NoBoundaryEdge),
        Some(j) => {
            let b = (j + 1) % k;
            let m = find_exit(s, b, 1);
            if m >= k {
                Err(ClipError::NoBoundaryEdge)
            } else {
                let e = (b + m) % k;
                let prev = (b + m - 1) % k;
                match cross_point(verts[ring[j] as int], verts[ring[b] as int], p, n) {
                    Err(er) => Err(er),
                    Ok(v1) => {
                        let verts1 = dedup(verts, v1).0;
                        let i1 = dedup(verts, v1).1;
                        match cross_point(verts1[ring[e] as int], verts1[ring[prev] as int], p, n) {
                            Err(er) => Err(er),
                            Ok(v2) => {
                                let verts2 = dedup(verts1, v2).0;
                                let i2 = dedup(verts1, v2).1;
                                if edge_lookup(edges, i1, 0) is Some {
                                    Err(ClipError::UnstitchableCap)
                                } else {
                                    Ok(
                                        (
                                            verts2,
                                            edges.push((i1, i2)),
                                            (face.0, seq![i2, i1] + run_seq(ring, b, m)),
                                        ),
                                    )
                                }
                            },
                        }
                    },
                }
            }
        },
    }
}

/// Processing one face: keep it when no vertex is outside, drop it when no
/// vertex is inside, cut it otherwise.
pub open spec fn clip_one_face<T>(
    face: (T, Seq<usize>),
    acc: ClipAcc<T>,
    p: Vec3S,
    n: Vec3S,
) -> Result<ClipAcc<T>, ClipError> {
    match ring_sides(acc.verts, face.1, p, n) {
        None => Err(ClipError::Overflow),
        Some(s) => if !has_outside(s) {
            Ok(ClipAcc { verts: acc.verts, faces: acc.faces.push(face), edges: acc.edges })
        } else if !has_inside(s) {
            Ok(acc)
        } else {
            match mixed_step(face, acc.verts, acc.edges, p, n, s) {
                Err(e) => Err(e),
                Ok(out) => Ok(
                    ClipAcc { verts: out.0, faces: acc.faces.push(out.2), edges: out.1 },
                ),
            }
        },
    }
}

/// Folding `clip_one_face` over the faces from position `i` on.
pub open spec fn clip_faces<T>(
    faces: Seq<(T, Seq<usize>)>,
    i: int,
    acc: ClipAcc<T>,
    p: Vec3S,
    n: Vec3S,
) -> Result<ClipAcc<T>, ClipError>
    decreases faces.len() - i,
{
    if i < 0 || i >= faces.len() {
        Ok(acc)
    } else {
        match clip_one_face(faces[i], acc, p, n) {
            Err(e) => Err(e),
            Ok(acc2) => clip_faces(faces, i + 1, acc2, p, n),
        }
    }
}

/// Following the edge map from `cur` until it returns to `start`. The loop
/// collected so far is `acc`; `fuel` bounds the walk by the number of edges,
/// so a walk that strays into a cycle not containing `start` is an error
/// rather than an endless loop.
pub open spec fn walk_cap(
    edges: Seq<(usize, usize)>,
    start: usize,
    cur: usize,
    acc: Seq<usize>,
    fuel: nat,
) -> Result<Seq<usize>, ClipError>
    decreases fuel,
{
    match edge_lookup(edges, cur, 0) {
        None => Err(ClipError::UnstitchableCap),
        Some(nxt) => if nxt == start {
            Ok(acc)
        } else if fuel == 0 {
            Err(ClipError::UnstitchableCap)
        } else {
            walk_cap(edges, start, nxt, acc.push(nxt), (fuel - 1) as nat)
        },
    }
}

/// Stitching the recorded cap edges into one closed loop: the walk must
/// return to its start having used every edge exactly once, and the loop must
/// be a real polygon of at least three vertices.
pub open spec fn stitch_spec(edges: Seq<(usize, usize)>) -> Result<Seq<usize>, ClipError>
    recommends
        edges.len() >= 1,
{
    let start = edges[0].0;
    match walk_cap(edges, start, start, seq![start], edges.len()) {
        Err(e) => Err(e),
        Ok(ring) => if ring.len() != edges.len() {
            Err(ClipError::UnstitchableCap)
        } else if ring.len() < 3 {
            Err(ClipError::DegenerateCap)
        } else {
            Ok(ring)
        },
    }
}

/// The whole clip: fold over the faces, then stitch the cap if any crossing
/// was recorded. This is the exact function the executable clip computes.
pub open spec fn clip_spec<T>(poly: PolyS<T>, p: Vec3S, n: Vec3S, info: T) -> Result<
    PolyS<T>,
    ClipError,
> {
    let init = ClipAcc { verts: poly.vertices, faces: Seq::empty(), edges: Seq::empty() };
    match clip_faces(poly.faces, 0, init, p, n) {
        Err(e) => Err(e),
        Ok(acc) => if acc.edges.len() == 0 {
            Ok(PolyS { vertices: acc.verts, faces: acc.faces })
        } else {
            match stitch_spec(acc.edges) {
                Err(e) => Err(e),
                Ok(ring) => Ok(
                    PolyS { vertices: acc.verts, faces: acc.faces.push((info, ring)) },
                ),
            }
        },
    }
}

/// Classification of one vertex, as executed.
pub fn vertex_side(v: &Vec3R, p: &Vec3R, n: &Vec3R) -> (r: Option<i8>)
    requires
        v.wf(),
        p.wf(),
        n.wf(),
    ensures
        match r {
            Some(s) => side_calc(v@, p@, n@) == Some(s as int) && -1 <= s <= 1,
            None => side_calc(v@, p@, n@) is None,
        },
{
    match v.sub(p) {
        Some(w) => match w.dot(n) {
            Some(dv) => if dv.is_pos() {
                Some(1)
            } else if dv.is_neg() {
                Some(-1)
            } else {
                Some(0)
            },
            None => None,
        },
        None => None,
    }
}

/// Intersection of the line segment `line.0 .. line.1` with a plane: `None`
/// when both endpoints classify to the same side.
pub fn line_segment_plane_intersection(
    line: (&Vec3R, &Vec3R),
    plane_point: &Vec3R,
    plane_normal: &Vec3R,
) -> (r: Result<Option<Vec3R>, ClipError>)
    requires
        line.0.wf(),
        line.1.wf(),
        plane_point.wf(),
        plane_normal.wf(),
    ensures
        isect_view(r) == lspi_spec(line.0@, line.1@, plane_point@, plane_normal@),
        r matches Ok(Some(v)) ==> v.wf(),
{
    let s1 = match vertex_side(line.0, plane_point, plane_normal) {
        Some(s) => s,
        None => {
            return Err(ClipError::Overflow);
        },
    };
    let s2 = match vertex_side(line.1, plane_point, plane_normal) {
        Some(s) => s,
        None => {
            return Err(ClipError::Overflow);
        },
    };
    if s1 == s2 {
        return Ok(None);
    }
    let dir = match line.1.sub(line.0) {
        Some(d) => d,
        None => {
            return Err(ClipError::Overflow);
        },
    };
    line_plane_intersection(line.0, &dir, plane_point, plane_normal)
}

/// Classification of a whole face loop, as executed.
fn compute_sides(verts: &Vec<Vec3R>, ring: &Vec<usize>, p: &Vec3R, n: &Vec3R) -> (r: Result<
    Vec<i8>,
    ClipError,
>)
    requires
        forall|i: int| 0 <= i < verts@.len() ==> (#[trigger] verts@[i]).wf(),
        forall|j: int| 0 <= j < ring@.len() ==> (#[trigger] ring@[j]) < verts@.len(),
        p.wf(),
        n.wf(),
    ensures
        match r {
            Ok(s) => ring_sides(verts_view(verts@), ring@, p@, n@) == Some(sides_view(s@)),
            Err(e) => e == ClipError::Overflow && ring_sides(verts_view(verts@), ring@, p@, n@)
                is None,
        },
{
    let mut s: Vec<i8> = Vec::new();
    let mut j: usize = 0;
    while j < ring.len()
        invariant
            forall|i: int| 0 <= i < verts@.len() ==> (#[trigger] verts@[i]).wf(),
            forall|t: int| 0 <= t < ring@.len() ==> (#[trigger] ring@[t]) < verts@.len(),
            p.wf(),
            n.wf(),
            j <= ring@.len(),
            s@.len() == j,
            forall|t: int|
                0 <= t < j ==> side_calc(verts_view(verts@)[ring@[t] as int], p@, n@) == Some(
                    #[trigger] s@[t] as int,
                ),
        decreases ring@.len() - j,
    {
        let vi = ring[j];
        match vertex_side(&verts[vi], p, n) {
            Some(sv) => {
                s.push(sv);
            },
            None => {
                proof {
                    assert(side_calc(verts_view(verts@)[ring@[j as int] as int], p@, n@) is None);
                }
                return Err(ClipError::Overflow);
            },
        }
        j += 1;
    }
    proof {
        assert forall|t: int|
            0 <= t < ring@.len() implies (#[trigger] side_calc(
            verts_view(verts@)[ring@[t] as int],
            p@,
            n@,
        )) is Some by {
            assert(side_calc(verts_view(verts@)[ring@[t] as int], p@, n@) == Some(s@[t] as int));
        }
        let inner = Seq::new(
            ring@.len(),
            |t: int| side_calc(verts_view(verts@)[ring@[t] as int], p@, n@)->Some_0,
        );
        assert forall|t: int| 0 <= t < ring@.len() implies inner[t] == sides_view(s@)[t] by {
            assert(side_calc(verts_view(verts@)[ring@[t] as int], p@, n@) == Some(s@[t] as int));
        }
        assert(inner =~= sides_view(s@));
    }
    Ok(s)
}

/// Whether any vertex of the face lies strictly outside the plane.
fn any_outside(s: &Vec<i8>) -> (r: bool)
    ensures
        r == has_outside(sides_view(s@)),
{
    let mut i: usize = 0;
    while i < s.len()
        invariant
            i <= s@.len(),
            forall|t: int| 0 <= t < i ==> #[trigger] s@[t] <= 0,
        decreases s@.len() - i,
    {
        if s[i] > 0 {
            proof {
                assert(sides_view(s@)[i as int] > 0);
            }
            return true;
        }
        i += 1;
    }
    proof {
        assert(forall|t: int| 0 <= t < sides_view(s@).len() ==> #[trigger] sides_view(s@)[t] <= 0);
    }
    false
}

/// Whether any vertex of the face lies inside (on or behind the plane).
fn any_inside(s: &Vec<i8>) -> (r: bool)
    ensures
        r == has_inside(sides_view(s@)),
{
    let mut i: usize = 0;
    while i < s.len()
        invariant
            i <= s@.len(),
            forall|t: int| 0 <= t < i ==> #[trigger] s@[t] > 0,
        decreases s@.len() - i,
    {
        if s[i] <= 0 {
            proof {
                assert(sides_view(s@)[i as int] <= 0);
            }
            return true;
        }
        i += 1;
    }
    proof {
        assert(forall|t: int| 0 <= t < sides_view(s@).len() ==> #[trigger] sides_view(s@)[t] > 0);
    }
    false
}

/// Deduplicating insertion, as executed: the index of the first vertex with
/// exactly this value, appending it if there is none.
fn find_or_push(verts: &mut Vec<Vec3R>, v: Vec3R) -> (i: usize)
    requires
        v.wf(),
        forall|t: int| 0 <= t < old(verts)@.len() ==> (#[trigger] old(verts)@[t]).wf(),
    ensures
        verts_view(final(verts)@) == dedup(verts_view(old(verts)@), v@).0,
        i == dedup(verts_view(old(verts)@), v@).1,
        i < final(verts)@.len(),
        final(verts)@.len() >= old(verts)@.len(),
        forall|t: int| 0 <= t < old(verts)@.len() ==> final(verts)@[t] == old(verts)@[t],
        forall|t: int| 0 <= t < final(verts)@.len() ==> (#[trigger] final(verts)@[t]).wf(),
{
    let ghost vv = verts_view(verts@);
    let mut k: usize = 0;
    while k < verts.len()
        invariant
            verts@ == old(verts)@,
            vv == verts_view(verts@),
            k <= verts@.len(),
            find_vertex(vv, v@, 0) == find_vertex(vv, v@, k as int),
            forall|t: int| 0 <= t < verts@.len() ==> (#[trigger] verts@[t]).wf(),
        decreases verts@.len() - k,
    {
        if verts[k] == v {
            proof {
                assert(vv[k as int] == v@);
                assert(find_vertex(vv, v@, k as int) == Some(k as int));
            }
            return k;
        }
        proof {
            assert(vv[k as int] != v@);
        }
        k += 1;
    }
    proof {
        assert(find_vertex(vv, v@, 0) is None);
    }
    let i = verts.len();
    verts.push(v);
    proof {
        assert(verts_view(verts@) =~= vv.push(v@));
    }
    i
}

/// The target of the first recorded edge with this source, as executed.
fn edge_target(edges: &Vec<(usize, usize)>, src: usize) -> (r: Option<usize>)
    ensures
        r == edge_lookup(edges@, src, 0),
{
    let mut i: usize = 0;
    while i < edges.len()
        invariant
            i <= edges@.len(),
            edge_lookup(edges@, src, 0) == edge_lookup(edges@, src, i as int),
        decreases edges@.len() - i,
    {
        if edges[i].0 == src {
            return Some(edges[i].1);
        }
        i += 1;
    }
    None
}

/// `x` occurs in the edge list, as a source or a target.
pub open spec fn edge_member(edges: Seq<(usize, usize)>, x: usize) -> bool {
    exists|j: int| 0 <= j < edges.len() && ((#[trigger] edges[j]).0 == x || edges[j].1 == x)
}

/// A successful lookup returns a recorded target.
proof fn lemma_edge_lookup_member(edges: Seq<(usize, usize)>, src: usize, i: int)
    requires
        edge_lookup(edges, src, i) is Some,
    ensures
        edge_member(edges, edge_lookup(edges, src, i)->Some_0),
    decreases edges.len() - i,
{
    if 0 <= i < edges.len() {
        if edges[i].0 == src {
        } else {
            lemma_edge_lookup_member(edges, src, i + 1);
        }
    }
}

/// Stepping a cyclic index.
fn cyc_next(idx: usize, k: usize) -> (r: usize)
    requires
        idx < k,
    ensures
        r as int == (idx as int + 1) % (k as int),
        r < k,
{
    proof {
        if idx + 1 == k {
            vstd::arithmetic::div_mod::lemma_mod_self_0(k as int);
        } else {
            vstd::arithmetic::div_mod::lemma_small_mod((idx + 1) as nat, k as nat);
        }
    }
    if idx + 1 == k {
        0
    } else {
        idx + 1
    }
}

/// Advancing a cyclic position by one mirrors advancing the step count.
proof fn lemma_cyc_step(x: int, k: int)
    requires
        k > 0,
        x >= 0,
    ensures
        (x % k + 1) % k == (x + 1) % k,
{
    vstd::arithmetic::div_mod::lemma_mod_bound(x, k);
    let r = x % k;
    let q = x / k;
    lemma_fundamental_div_mod(x, k);
    if r + 1 < k {
        vstd::arithmetic::div_mod::lemma_small_mod((r + 1) as nat, k as nat);
        assert(x + 1 == q * k + (r + 1)) by (nonlinear_arith)
            requires
                x == k * q + r,
        ;
        vstd::arithmetic::div_mod::lemma_fundamental_div_mod_converse(x + 1, k, q, r + 1);
    } else {
        vstd::arithmetic::div_mod::lemma_mod_self_0(k);
        assert(x + 1 == (q + 1) * k + 0) by (nonlinear_arith)
            requires
                x == k * q + r,
                r + 1 == k,
        ;
        vstd::arithmetic::div_mod::lemma_fundamental_div_mod_converse(x + 1, k, q + 1, 0);
    }
}

/// The position of the entry crossing: the first outside vertex whose cyclic
/// successor is inside, as executed.
fn entry_index(sides: &Vec<i8>) -> (r: Option<usize>)
    requires
        sides@.len() >= 1,
    ensures
        match r {
            Some(j) => find_entry(sides_view(sides@), 0) == Some(j as int) && j < sides@.len(),
            None => find_entry(sides_view(sides@), 0) is None,
        },
{
    let k = sides.len();
    let mut j: usize = 0;
    while j < k
        invariant
            k == sides@.len(),
            k >= 1,
            j <= k,
            find_entry(sides_view(sides@), 0) == find_entry(sides_view(sides@), j as int),
        decreases k - j,
    {
        let jn = cyc_next(j, k);
        if sides[j] > 0 && sides[jn] <= 0 {
            proof {
                assert(sides_view(sides@)[j as int] > 0);
                assert(sides_view(sides@)[(j as int + 1) % (k as int)] <= 0);
            }
            return Some(j);
        }
        proof {
            assert(sides_view(sides@)[j as int] == sides@[j as int] as int);
            assert(sides_view(sides@)[(j as int + 1) % (k as int)] == sides@[jn as int] as int);
        }
        j += 1;
    }
    None
}

/// The position of the exit crossing: walking the loop from `b`, the first
/// step that meets an outside vertex again. Returns the step count, the
/// outside position reached, and the inside position just before it.
fn exit_index(sides: &Vec<i8>, b: usize) -> (r: (usize, usize, usize))
    requires
        sides@.len() >= 1,
        b < sides@.len(),
    ensures
        r.0 as int == find_exit(sides_view(sides@), b as int, 1),
        1 <= r.0 <= sides@.len(),
        r.0 < sides@.len() ==> {
            &&& r.1 as int == (b as int + r.0 as int) % (sides@.len() as int)
            &&& r.2 as int == (b as int + r.0 as int - 1) % (sides@.len() as int)
            &&& r.1 < sides@.len()
            &&& r.2 < sides@.len()
        },
{
    let k = sides.len();
    let ghost s = sides_view(sides@);
    let mut m: usize = 1;
    let mut prev: usize = b;
    let mut idx = cyc_next(b, k);
    proof {
        vstd::arithmetic::div_mod::lemma_small_mod(b as nat, k as nat);
    }
    while m < k && sides[idx] <= 0
        invariant
            k == sides@.len(),
            s == sides_view(sides@),
            b < k,
            1 <= m <= k,
            idx < k,
            prev < k,
            idx as int == (b as int + m as int) % (k as int),
            prev as int == (b as int + m as int - 1) % (k as int),
            find_exit(s, b as int, 1) == find_exit(s, b as int, m as int),
        decreases k - m,
    {
        proof {
            assert(s[(b as int + m as int) % (k as int)] == sides@[idx as int] as int);
            assert(find_exit(s, b as int, m as int) == find_exit(s, b as int, m as int + 1));
            lemma_cyc_step(b as int + m as int, k as int);
        }
        prev = idx;
        idx = cyc_next(idx, k);
        m += 1;
    }
    proof {
        if m < k {
            assert(s[(b as int + m as int) % (k as int)] == sides@[idx as int] as int);
            assert(find_exit(s, b as int, m as int) == m as int);
        }
    }
    (m, idx, prev)
}

/// Cutting one mixed face, as executed: mirror of `mixed_step`.
#[verifier::rlimit(100)]
fn clip_mixed_face<T>(
    verts: &mut Vec<Vec3R>,
    edges: &mut Vec<(usize, usize)>,
    info: T,
    ring: Vec<usize>,
    sides: &Vec<i8>,
    p: &Vec3R,
    n: &Vec3R,
) -> (r: Result<(T, Vec<usize>), ClipError>)
    requires
        forall|t: int| 0 <= t < old(verts)@.len() ==> (#[trigger] old(verts)@[t]).wf(),
        forall|j: int| 0 <= j < ring@.len() ==> (#[trigger] ring@[j]) < old(verts)@.len(),
        ring@.len() >= 3,
        sides@.len() == ring@.len(),
        p.wf(),
        n.wf(),
    ensures
        match r {
            Ok(f) => {
                &&& mixed_step(
                    (info, ring@),
                    verts_view(old(verts)@),
                    old(edges)@,
                    p@,
                    n@,
                    sides_view(sides@),
                ) == Ok::<_, ClipError>((verts_view(final(verts)@), final(edges)@, (f.0, f.1@)))
                &&& f.1@.len() >= 3
                &&& forall|t: int|
                    0 <= t < f.1@.len() ==> (#[trigger] f.1@[t]) < final(verts)@.len()
                &&& final(verts)@.len() >= old(verts)@.len()
                &&& forall|t: int| 0 <= t < old(verts)@.len() ==> final(verts)@[t] == old(
                    verts,
                )@[t]
                &&& forall|t: int|
                    0 <= t < final(verts)@.len() ==> (#[trigger] final(verts)@[t]).wf()
                &&& final(edges)@ == old(edges)@.push(
                    (final(edges)@[old(edges)@.len() as int].0, final(edges)@[old(edges)@.len() as int].1),
                )
                &&& final(edges)@[old(edges)@.len() as int].0 < final(verts)@.len()
                &&& final(edges)@[old(edges)@.len() as int].1 < final(verts)@.len()
            },
            Err(e) => mixed_step(
                (info, ring@),
                verts_view(old(verts)@),
                old(edges)@,
                p@,
                n@,
                sides_view(sides@),
            ) == Err::<(Seq<Vec3S>, Seq<(usize, usize)>, (T, Seq<usize>)), ClipError>(e),
        },
{
    let k = ring.len();
    let ghost s = sides_view(sides@);
    let ghost verts0 = verts_view(verts@);
    let j = match entry_index(sides) {
        Some(j) => j,
        None => {
            return Err(ClipError::NoBoundaryEdge);
        },
    };
    let b = cyc_next(j, k);
    let (m, e, prev) = exit_index(sides, b);
    if m >= k {
        proof {
            assert(find_exit(s, b as int, 1) >= k as int);
        }
        return Err(ClipError::NoBoundaryEdge);
    }
    // Entry crossing: the segment from the outside vertex at `j` to the
    // inside vertex at `b`.
    let va = verts[ring[j]];
    let vb = verts[ring[b]];
    let dir = match vb.sub(&va) {
        Some(d) => d,
        None => {
            return Err(ClipError::Overflow);
        },
    };
    let v1 = match line_plane_intersection(&va, &dir, p, n) {
        Ok(Some(v)) => v,
        Ok(None) => {
            return Err(ClipError::ParallelCrossing);
        },
        Err(er) => {
            return Err(er);
        },
    };
    proof {
        assert(cross_point(verts0[ring@[j as int] as int], verts0[ring@[b as int] as int], p@, n@)
            == Ok::<Vec3S, ClipError>(v1@));
    }
    let i1 = find_or_push(verts, v1);
    let ghost verts1 = verts_view(verts@);
    // Exit crossing: the segment from the outside vertex at `e` back to the
    // last inside vertex at `prev`.
    let vc = verts[ring[e]];
    let vd = verts[ring[prev]];
    let dir2 = match vd.sub(&vc) {
        Some(d) => d,
        None => {
            return Err(ClipError::Overflow);
        },
    };
    let v2 = match line_plane_intersection(&vc, &dir2, p, n) {
        Ok(Some(v)) => v,
        Ok(None) => {
            return Err(ClipError::ParallelCrossing);
        },
        Err(er) => {
            return Err(er);
        },
    };
    proof {
        assert(cross_point(verts1[ring@[e as int] as int], verts1[ring@[prev as int] as int], p@, n@)
            == Ok::<Vec3S, ClipError>(v2@));
    }
    let i2 = find_or_push(verts, v2);
    match edge_target(edges, i1) {
        Some(_) => {
            return Err(ClipError::UnstitchableCap);
        },
        None => {},
    }
    edges.push((i1, i2));
    let mut new_ring: Vec<usize> = Vec::new();
    new_ring.push(i2);
    new_ring.push(i1);
    proof {
        assert(new_ring@ =~= seq![i2, i1] + run_seq(ring@, b as int, 0));
        vstd::arithmetic::div_mod::lemma_small_mod(b as nat, k as nat);
    }
    let mut t: usize = 0;
    let mut idx = b;
    while t < m
        invariant
            k == ring@.len(),
            k >= 1,
            b < k,
            m < k,
            t <= m,
            idx < k,
            idx as int == (b as int + t as int) % (k as int),
            new_ring@ == seq![i2, i1] + run_seq(ring@, b as int, t as int),
        decreases m - t,
    {
        new_ring.push(ring[idx]);
        proof {
            lemma_cyc_step(b as int + t as int, k as int);
            assert(run_seq(ring@, b as int, t as int + 1) =~= run_seq(
                ring@,
                b as int,
                t as int,
            ).push(ring@[(b as int + t as int) % (k as int)]));
            assert(new_ring@ =~= (seq![i2, i1] + run_seq(ring@, b as int, t as int)).push(
                ring@[idx as int],
            ));
            assert(new_ring@ =~= seq![i2, i1] + run_seq(ring@, b as int, t as int + 1));
        }
        idx = cyc_next(idx, k);
        t += 1;
    }
    proof {
        let face = (info, ring@);
        let eds0 = old(edges)@;
        let i1u = i1 as usize;
        let i2u = i2 as usize;
        assert(mixed_step(face, verts0, eds0, p@, n@, s) == Ok::<
            (Seq<Vec3S>, Seq<(usize, usize)>, (T, Seq<usize>)),
            ClipError,
        >((verts_view(verts@), edges@, (face.0, seq![i2u, i1u] + run_seq(ring@, b as int, m as int)))));
        assert(new_ring@ == seq![i2u, i1u] + run_seq(ring@, b as int, m as int));
        assert forall|q: int| 0 <= q < new_ring@.len() implies (#[trigger] new_ring@[q])
            < verts@.len() by {
            if q >= 2 {
                assert(new_ring@[q] == ring@[(b as int + (q - 2)) % (k as int)]);
                vstd::arithmetic::div_mod::lemma_mod_bound(b as int + (q - 2), k as int);
            }
        }
    }
    Ok((info, new_ring))
}

/// Stitching the cap edges, as executed.
fn stitch_cap(edges: &Vec<(usize, usize)>) -> (r: Result<Vec<usize>, ClipError>)
    requires
        edges@.len() >= 1,
    ensures
        match r {
            Ok(ring) => stitch_spec(edges@) == Ok::<Seq<usize>, ClipError>(ring@) && ring@.len() >= 3 && forall|i: int|
                0 <= i < ring@.len() ==> edge_member(edges@, #[trigger] ring@[i]),
            Err(e) => stitch_spec(edges@) == Err::<Seq<usize>, ClipError>(e),
        },
{
    let start = edges[0].0;
    let mut ring: Vec<usize> = Vec::new();
    ring.push(start);
    let mut cur = start;
    let mut fuel = edges.len();
    proof {
        assert(edge_member(edges@, start));
        assert(ring@ =~= seq![start]);
    }
    loop
        invariant
            edges@.len() >= 1,
            start == edges@[0].0,
            fuel <= edges@.len(),
            ring@.len() >= 1,
            walk_cap(edges@, start, cur, ring@, fuel as nat) == walk_cap(
                edges@,
                start,
                start,
                seq![start],
                edges@.len(),
            ),
            forall|i: int| 0 <= i < ring@.len() ==> edge_member(edges@, #[trigger] ring@[i]),
        decreases fuel,
    {
        match edge_target(edges, cur) {
            None => {
                return Err(ClipError::UnstitchableCap);
            },
            Some(nxt) => {
                if nxt == start {
                    if ring.len() != edges.len() {
                        return Err(ClipError::UnstitchableCap);
                    }
                    if ring.len() < 3 {
                        return Err(ClipError::DegenerateCap);
                    }
                    return Ok(ring);
                }
                if fuel == 0 {
                    return Err(ClipError::UnstitchableCap);
                }
                proof {
                    lemma_edge_lookup_member(edges@, cur, 0);
                }
                ring.push(nxt);
                cur = nxt;
                fuel = fuel - 1;
            },
        }
    }
}

/// Pushing a face commutes with taking face values.
proof fn lemma_faces_view_push<T>(f: Seq<(T, Vec<usize>)>, x: (T, Vec<usize>))
    ensures
        faces_view(f.push(x)) =~= faces_view(f).push((x.0, x.1@)),
{
}

/// Clips `polyhedron` in place against the half-space behind the plane
/// through `plane_point` with outward normal `plane_normal`: what the normal
/// points toward is cut away. Faces fully outside are dropped, faces fully
/// inside are kept unchanged, mixed faces are cut exactly along the plane,
/// and the cross-section becomes one new face carrying `new_face_info`.
/// Vertices are only ever appended, never removed.
///
/// On an error — arithmetic overflow, or a degenerate input whose crossing
/// edges do not stitch into one closed cap loop — the vertices are left
/// unchanged and the face list is left empty, so a caller can discard the
/// brush and carry on.
#[verifier::rlimit(100)]
pub fn clip_polyhedron_to_plane<T>(
    polyhedron: &mut Polyhedron<T>,
    plane_point: &Vec3R,
    plane_normal: &Vec3R,
    new_face_info: T,
) -> (r: Result<(), ClipError>)
    requires
        old(polyhedron).wf(),
        plane_point.wf(),
        plane_normal.wf(),
    ensures
        match r {
            Ok(()) => {
                &&& clip_spec(old(polyhedron)@, plane_point@, plane_normal@, new_face_info)
                    == Ok::<PolyS<T>, ClipError>(final(polyhedron)@)
                &&& final(polyhedron).wf()
                &&& final(polyhedron)@.vertices.len() >= old(polyhedron)@.vertices.len()
                &&& forall|i: int|
                    0 <= i < old(polyhedron)@.vertices.len() ==> final(polyhedron)@.vertices[i]
                        == old(polyhedron)@.vertices[i]
            },
            Err(e) => {
                &&& clip_spec(old(polyhedron)@, plane_point@, plane_normal@, new_face_info)
                    == Err::<PolyS<T>, ClipError>(e)
                &&& final(polyhedron).vertices@ == old(polyhedron).vertices@
                &&& final(polyhedron)@.faces.len() == 0
            },
        },
{
    let ghost poly0 = polyhedron@;
    let ghost pv = plane_point@;
    let ghost nv = plane_normal@;
    let ghost info0 = new_face_info;
    let mut old_fs: Vec<(T, Vec<usize>)> = Vec::new();
    core::mem::swap(&mut polyhedron.faces, &mut old_fs);
    let ghost faces0 = poly0.faces;
    proof {
        assert(faces_view(old_fs@) =~= faces0);
    }
    // Work on local copies; the polyhedron is updated only on success.
    let mut verts: Vec<Vec3R> = Vec::new();
    let mut vi: usize = 0;
    while vi < polyhedron.vertices.len()
        invariant
            vi <= polyhedron.vertices@.len(),
            verts@.len() == vi,
            polyhedron.vertices@ == old(polyhedron).vertices@,
            forall|t: int| 0 <= t < vi ==> verts@[t] == polyhedron.vertices@[t],
        decreases polyhedron.vertices@.len() - vi,
    {
        let v = polyhedron.vertices[vi];
        verts.push(v);
        vi += 1;
    }
    proof {
        assert(verts_view(verts@) =~= poly0.vertices);
        assert forall|t: int| 0 <= t < verts@.len() implies (#[trigger] verts@[t]).wf() by {
            assert(verts_view(verts@)[t] == poly0.vertices[t]);
        }
    }
    let ghost n0 = poly0.vertices.len();
    let mut new_faces: Vec<(T, Vec<usize>)> = Vec::new();
    let mut edges: Vec<(usize, usize)> = Vec::new();
    let ghost init_acc = ClipAcc::<T> {
        verts: poly0.vertices,
        faces: Seq::empty(),
        edges: Seq::empty(),
    };
    let ghost mut i: int = 0;
    proof {
        assert(faces_view(new_faces@) =~= Seq::<(T, Seq<usize>)>::empty());
    }
    while old_fs.len() > 0
        invariant
            poly_wf(poly0),
            plane_point.wf(),
            plane_normal.wf(),
            pv == plane_point@,
            nv == plane_normal@,
            polyhedron.vertices@ == old(polyhedron).vertices@,
            polyhedron.faces@.len() == 0,
            verts_view(old(polyhedron).vertices@) == poly0.vertices,
            faces0 == poly0.faces,
            poly0 == old(polyhedron)@,
            info0 == new_face_info,
            init_acc == (ClipAcc::<T> {
                verts: poly0.vertices,
                faces: Seq::empty(),
                edges: Seq::empty(),
            }),
            n0 == poly0.vertices.len(),
            0 <= i <= faces0.len(),
            i + old_fs@.len() == faces0.len(),
            faces_view(old_fs@) == faces0.skip(i),
            verts@.len() >= n0,
            forall|t: int| 0 <= t < n0 ==> verts_view(verts@)[t] == poly0.vertices[t],
            forall|t: int| 0 <= t < verts@.len() ==> (#[trigger] verts@[t]).wf(),
            forall|t: int|
                0 <= t < new_faces@.len() ==> ring_ok(
                    (#[trigger] faces_view(new_faces@)[t]).1,
                    verts@.len(),
                ),
            forall|t: int|
                0 <= t < edges@.len() ==> (#[trigger] edges@[t]).0 < verts@.len() && edges@[t].1
                    < verts@.len(),
            clip_faces(
                faces0,
                i,
                ClipAcc { verts: verts_view(verts@), faces: faces_view(new_faces@), edges: edges@ },
                pv,
                nv,
            ) == clip_faces(faces0, 0, init_acc, pv, nv),
        decreases old_fs@.len(),
    {
        let ghost acc_before = ClipAcc {
            verts: verts_view(verts@),
            faces: faces_view(new_faces@),
            edges: edges@,
        };
        let ghost fs_before = old_fs@;
        let (info, ring) = old_fs.remove(0);
        proof {
            assert(faces0.skip(i)[0] == faces0[i]);
            assert(faces_view(fs_before)[0] == faces0[i]);
            assert((info, ring@) == faces0[i]);
            assert(old_fs@ == fs_before.remove(0));
            assert forall|t: int| 0 <= t < faces_view(old_fs@).len() implies faces_view(old_fs@)[t]
                == faces0.skip(i + 1)[t] by {
                assert(old_fs@[t] == fs_before[t + 1]);
                assert(faces_view(fs_before)[t + 1] == faces0.skip(i)[t + 1]);
            }
            assert(faces_view(old_fs@) =~= faces0.skip(i + 1));
            assert(ring_ok(faces0[i].1, n0));
        }
        let sides = match compute_sides(&verts, &ring, plane_point, plane_normal) {
            Ok(s) => s,
            Err(e) => {
                proof {
                    assert(clip_one_face(faces0[i], acc_before, pv, nv) == Err::<
                        ClipAcc<T>,
                        ClipError,
                    >(ClipError::Overflow));
                    assert(clip_faces(faces0, i, acc_before, pv, nv) == Err::<
                        ClipAcc<T>,
                        ClipError,
                    >(ClipError::Overflow));
                    assert(clip_spec(poly0, pv, nv, info0) == Err::<PolyS<T>, ClipError>(e));
                }
                return Err(e);
            },
        };
        let ghost sv = sides_view(sides@);
        let has_out = any_outside(&sides);
        let has_in = any_inside(&sides);
        if !has_out {
            new_faces.push((info, ring));
            proof {
                lemma_faces_view_push(new_faces@.drop_last(), new_faces@.last());
                assert(new_faces@.drop_last().push(new_faces@.last()) =~= new_faces@);
                assert(faces_view(new_faces@) =~= acc_before.faces.push(faces0[i]));
                assert(clip_one_face(faces0[i], acc_before, pv, nv) == Ok::<
                    ClipAcc<T>,
                    ClipError,
                >(
                    ClipAcc {
                        verts: verts_view(verts@),
                        faces: faces_view(new_faces@),
                        edges: edges@,
                    },
                ));
                i = i + 1;
            }
        } else if !has_in {
            proof {
                assert(clip_one_face(faces0[i], acc_before, pv, nv) == Ok::<
                    ClipAcc<T>,
                    ClipError,
                >(acc_before));
                i = i + 1;
            }
        } else {
            match clip_mixed_face(&mut verts, &mut edges, info, ring, &sides, plane_point,
                plane_normal) {
                Ok(f) => {
                    proof {
                        assert(clip_one_face(faces0[i], acc_before, pv, nv) == Ok::<
                            ClipAcc<T>,
                            ClipError,
                        >(
                            ClipAcc {
                                verts: verts_view(verts@),
                                faces: acc_before.faces.push((f.0, f.1@)),
                                edges: edges@,
                            },
                        ));
                    }
                    new_faces.push(f);
                    proof {
                        lemma_faces_view_push(new_faces@.drop_last(), new_faces@.last());
                        assert(new_faces@.drop_last().push(new_faces@.last()) =~= new_faces@);
                        assert(faces_view(new_faces@) =~= acc_before.faces.push(
                            (faces_view(new_faces@).last().0, faces_view(new_faces@).last().1),
                        ));
                        i = i + 1;
                    }
                },
                Err(e) => {
                    proof {
                        assert(clip_one_face(faces0[i], acc_before, pv, nv) == Err::<
                            ClipAcc<T>,
                            ClipError,
                        >(e));
                        assert(clip_faces(faces0, i, acc_before, pv, nv) == Err::<
                            ClipAcc<T>,
                            ClipError,
                        >(e));
                        assert(clip_spec(poly0, pv, nv, info0) == Err::<PolyS<T>, ClipError>(e));
                    }
                    return Err(e);
                },
            }
        }
    }
    let ghost acc_final = ClipAcc {
        verts: verts_view(verts@),
        faces: faces_view(new_faces@),
        edges: edges@,
    };
    proof {
        assert(i == faces0.len());
        assert(clip_faces(faces0, i, acc_final, pv, nv) == Ok::<ClipAcc<T>, ClipError>(acc_final));
        assert(clip_faces(faces0, 0, init_acc, pv, nv) == Ok::<ClipAcc<T>, ClipError>(acc_final));
    }
    if edges.len() == 0 {
        polyhedron.vertices = verts;
        core::mem::swap(&mut polyhedron.faces, &mut new_faces);
        proof {
            assert(polyhedron@.vertices =~= acc_final.verts);
            assert(polyhedron@.faces =~= acc_final.faces);
            assert(clip_spec(poly0, pv, nv, info0) == Ok::<PolyS<T>, ClipError>(polyhedron@));
        }
        Ok(())
    } else {
        match stitch_cap(&edges) {
            Err(e) => {
                proof {
                    assert(clip_spec(poly0, pv, nv, info0) == Err::<PolyS<T>, ClipError>(e));
                }
                Err(e)
            },
            Ok(cap_ring) => {
                proof {
                    assert(stitch_spec(edges@) == Ok::<Seq<usize>, ClipError>(cap_ring@));
                    assert forall|t: int| 0 <= t < cap_ring@.len() implies (#[trigger] cap_ring@[t])
                        < verts@.len() by {
                        assert(edge_member(edges@, cap_ring@[t]));
                    }
                }
                new_faces.push((new_face_info, cap_ring));
                polyhedron.vertices = verts;
                core::mem::swap(&mut polyhedron.faces, &mut new_faces);
                proof {
                    lemma_faces_view_push(polyhedron.faces@.drop_last(), polyhedron.faces@.last());
                    assert(polyhedron.faces@.drop_last().push(polyhedron.faces@.last())
                        =~= polyhedron.faces@);
                    assert(polyhedron@.vertices =~= acc_final.verts);
                    assert(polyhedron@.faces =~= acc_final.faces.push(
                        (faces_view(polyhedron.faces@).last().0, faces_view(
                            polyhedron.faces@,
                        ).last().1),
                    ));
                    assert(clip_spec(poly0, pv, nv, info0) == Ok::<PolyS<T>, ClipError>(
                        polyhedron@,
                    ));
                }
                Ok(())
            },
        }
    }
}

/// Every vertex used by a face of `poly` classifies as inside (on or behind
/// the plane), without overflow.
pub open spec fn all_face_verts_inside<T>(poly: PolyS<T>, p: Vec3S, n: Vec3S) -> bool {
    forall|i: int, j: int|
        0 <= i < poly.faces.len() && 0 <= j < poly.faces[i].1.len() ==> ((#[trigger] side_calc(
            poly.vertices[poly.faces[i].1[j] as int],
            p,
            n,
        )) matches Some(s) && s <= 0)
}

/// When every remaining face has no outside vertex, the fold keeps each face
/// unchanged and records nothing else.
proof fn lemma_clip_faces_all_kept<T>(
    faces: Seq<(T, Seq<usize>)>,
    i: int,
    acc: ClipAcc<T>,
    p: Vec3S,
    n: Vec3S,
)
    requires
        0 <= i <= faces.len(),
        forall|t: int, j: int|
            i <= t < faces.len() && 0 <= j < faces[t].1.len() ==> ((#[trigger] side_calc(
                acc.verts[faces[t].1[j] as int],
                p,
                n,
            )) matches Some(s) && s <= 0),
    ensures
        clip_faces(faces, i, acc, p, n) == Ok::<ClipAcc<T>, ClipError>(
            ClipAcc { verts: acc.verts, faces: acc.faces + faces.skip(i), edges: acc.edges },
        ),
    decreases faces.len() - i,
{
    if i >= faces.len() {
        assert(acc.faces + faces.skip(i) =~= acc.faces);
        assert(ClipAcc { verts: acc.verts, faces: acc.faces + faces.skip(i), edges: acc.edges }
            == acc);
    } else {
        let ring = faces[i].1;
        assert(forall|j: int|
            0 <= j < ring.len() ==> (#[trigger] side_calc(acc.verts[ring[j] as int], p, n))
                is Some);
        let s = ring_sides(acc.verts, ring, p, n)->Some_0;
        assert forall|j: int| 0 <= j < s.len() implies #[trigger] s[j] <= 0 by {
            assert(side_calc(acc.verts[ring[j] as int], p, n) matches Some(v) && v <= 0);
        }
        assert(!has_outside(s));
        let acc2 = ClipAcc {
            verts: acc.verts,
            faces: acc.faces.push(faces[i]),
            edges: acc.edges,
        };
        assert(clip_one_face(faces[i], acc, p, n) == Ok::<ClipAcc<T>, ClipError>(acc2));
        lemma_clip_faces_all_kept(faces, i + 1, acc2, p, n);
        assert(acc.faces.push(faces[i]) + faces.skip(i + 1) =~= acc.faces + faces.skip(i));
    }
}

/// Idempotence of clipping: against a plane that no face vertex of the
/// polyhedron strictly crosses — as after a first clip by the same plane,
/// when every surviving vertex is on or behind it — a clip is a no-op: every
/// face is kept unchanged, no vertex is added, and no cap face is created.
pub proof fn lemma_clip_noop<T>(poly: PolyS<T>, p: Vec3S, n: Vec3S, info: T)
    requires
        all_face_verts_inside(poly, p, n),
    ensures
        clip_spec(poly, p, n, info) == Ok::<PolyS<T>, ClipError>(poly),
{
    let init = ClipAcc::<T> {
        verts: poly.vertices,
        faces: Seq::empty(),
        edges: Seq::empty(),
    };
    lemma_clip_faces_all_kept(poly.faces, 0, init, p, n);
    assert(Seq::<(T, Seq<usize>)>::empty() + poly.faces.skip(0) =~= poly.faces);
    assert(clip_faces(poly.faces, 0, init, p, n) == Ok::<ClipAcc<T>, ClipError>(
        ClipAcc { verts: poly.vertices, faces: poly.faces, edges: Seq::empty() },
    ));
    assert(PolyS { vertices: poly.vertices, faces: poly.faces } == poly);
}

} // verus!
