//! Brush construction: carving a convex solid out of an oversized cube.
//!
//! A brush arrives as an ordered list of face descriptors, each bounding the
//! solid by an infinite plane given through three of its points. The builder
//! seeds a polyhedron as an axis-aligned cube of half-extent
//! `MAX_MAP_EXTENT` — large enough to contain any legal brush — with six
//! untagged faces, and clips it once per descriptor, in the given order,
//! tagging each cut with its descriptor. A correctly closed brush leaves no
//! untagged face; a surviving untagged face means the half-spaces do not
//! bound a finite solid, which is reported as an error rather than rendered.

use crate::clip::{
    clip_polyhedron_to_plane, clip_spec, faces_view, poly_wf, verts_view, ClipError, PolyS,
    Polyhedron,
};
use crate::displacement::{Dispinfo, UVAxis};
use crate::vector::{
    vs_cross, vs_cross_ok, vs_int, vs_is_zero, vs_sub, vs_sub_ok, Vec3R, Vec3S,
};
use vstd::prelude::*;

verus! {

/// Half-extent of the seed cube; it must exceed the magnitude of any
/// coordinate in valid input.
pub const MAX_MAP_EXTENT: i64 = 16384;

/// One face descriptor of a brush: three defining points whose winding
/// gives the outward normal, the material drawn on the face, its two
/// texture axes, and optional displacement data.
#[derive(Debug)]
pub struct Face {
    pub id: i32,
    pub plane: (Vec3R, Vec3R, Vec3R),
    pub material: String,
    pub uaxis: UVAxis,
    pub vaxis: UVAxis,
    pub lightmapscale: i32,
    pub smoothing_groups: i32,
    pub dispinfo: Option<Dispinfo>,
}

impl Face {
    pub open spec fn wf(self) -> bool {
        &&& self.plane.0.wf()
        &&& self.plane.1.wf()
        &&& self.plane.2.wf()
        &&& self.uaxis.wf()
        &&& self.vaxis.wf()
        &&& (self.dispinfo matches Some(d) ==> d.wf())
    }
}

/// A brush's solid: a polyhedron whose faces carry the descriptor that cut
/// them, or nothing for a surviving seed face.
pub type BrushShape = Polyhedron<Option<Face>>;

/// Why a brush was rejected as a whole.
#[derive(Debug)]
pub enum BrushError {
    /// Three collinear or duplicate defining points: the face's plane has a
    /// zero-length normal.
    MalformedPlane,
    /// An untagged seed face survived all clips: the brush's half-spaces do
    /// not bound a finite solid.
    UnclosedBrush,
    /// A clip failed; the underlying reason.
    Clip(ClipError),
}

/// The value of the seed cube: eight corner vertices at half-extent
/// `MAX_MAP_EXTENT` and six untagged quad faces.
pub open spec fn seed_view() -> PolyS<Option<Face>> {
    PolyS {
        vertices: seq![
            vs_int(-16384, -16384, 16384),
            vs_int(-16384, 16384, 16384),
            vs_int(-16384, -16384, -16384),
            vs_int(-16384, 16384, -16384),
            vs_int(16384, -16384, 16384),
            vs_int(16384, 16384, 16384),
            vs_int(16384, -16384, -16384),
            vs_int(16384, 16384, -16384),
        ],
        faces: seq![
            (None, seq![0usize, 1usize, 3usize, 2usize]),
            (None, seq![2usize, 3usize, 7usize, 6usize]),
            (None, seq![6usize, 7usize, 5usize, 4usize]),
            (None, seq![4usize, 5usize, 1usize, 0usize]),
            (None, seq![2usize, 6usize, 4usize, 0usize]),
            (None, seq![7usize, 3usize, 1usize, 5usize]),
        ],
    }
}

/// The outward (unnormalized) plane normal of a descriptor:
/// `cross(p2 - p0, p1 - p0)`. The half-space a plane bounds does not depend
/// on the normal's length, so no normalization is needed; a zero normal
/// means the three points are collinear or coincident.
pub open spec fn face_normal_spec(f: Face) -> Result<Vec3S, BrushError> {
    if !vs_sub_ok(f.plane.2@, f.plane.0@) {
        Err(BrushError::Clip(ClipError::Overflow))
    } else if !vs_sub_ok(f.plane.1@, f.plane.0@) {
        Err(BrushError::Clip(ClipError::Overflow))
    } else {
        let e1 = vs_sub(f.plane.2@, f.plane.0@);
        let e2 = vs_sub(f.plane.1@, f.plane.0@);
        if !vs_cross_ok(e1, e2) {
            Err(BrushError::Clip(ClipError::Overflow))
        } else if vs_is_zero(vs_cross(e1, e2)) {
            Err(BrushError::MalformedPlane)
        } else {
            Ok(vs_cross(e1, e2))
        }
    }
}

/// Clipping the polyhedron by each remaining descriptor in order.
pub open spec fn build_step(faces: Seq<Face>, i: int, poly: PolyS<Option<Face>>) -> Result<
    PolyS<Option<Face>>,
    BrushError,
>
    decreases faces.len() - i,
{
    if i < 0 || i >= faces.len() {
        Ok(poly)
    } else {
        match face_normal_spec(faces[i]) {
            Err(e) => Err(e),
            Ok(normal) => match clip_spec(poly, faces[i].plane.0@, normal, Some(faces[i])) {
                Err(e) => Err(BrushError::Clip(e)),
                Ok(p2) => build_step(faces, i + 1, p2),
            },
        }
    }
}

/// Every face of the polyhedron carries a descriptor.
pub open spec fn all_faces_tagged(p: PolyS<Option<Face>>) -> bool {
    forall|i: int| 0 <= i < p.faces.len() ==> (#[trigger] p.faces[i]).0 is Some
}

/// The whole build: clip the seed cube by every descriptor, then reject the
/// brush if any untagged seed face survived.
pub open spec fn build_spec(faces: Seq<Face>) -> Result<PolyS<Option<Face>>, BrushError> {
    match build_step(faces, 0, seed_view()) {
        Err(e) => Err(e),
        Ok(p) => if all_faces_tagged(p) {
            Ok(p)
        } else {
            Err(BrushError::UnclosedBrush)
        },
    }
}

/// The seed cube, as executed.
fn seed_polyhedron() -> (r: BrushShape)
    ensures
        r@ == seed_view(),
        r.wf(),
{
    let mut vertices: Vec<Vec3R> = Vec::new();
    vertices.push(Vec3R::from_ints(-MAX_MAP_EXTENT, -MAX_MAP_EXTENT, MAX_MAP_EXTENT));
    vertices.push(Vec3R::from_ints(-MAX_MAP_EXTENT, MAX_MAP_EXTENT, MAX_MAP_EXTENT));
    vertices.push(Vec3R::from_ints(-MAX_MAP_EXTENT, -MAX_MAP_EXTENT, -MAX_MAP_EXTENT));
    vertices.push(Vec3R::from_ints(-MAX_MAP_EXTENT, MAX_MAP_EXTENT, -MAX_MAP_EXTENT));
    vertices.push(Vec3R::from_ints(MAX_MAP_EXTENT, -MAX_MAP_EXTENT, MAX_MAP_EXTENT));
    vertices.push(Vec3R::from_ints(MAX_MAP_EXTENT, MAX_MAP_EXTENT, MAX_MAP_EXTENT));
    vertices.push(Vec3R::from_ints(MAX_MAP_EXTENT, -MAX_MAP_EXTENT, -MAX_MAP_EXTENT));
    vertices.push(Vec3R::from_ints(MAX_MAP_EXTENT, MAX_MAP_EXTENT, -MAX_MAP_EXTENT));
    let mut faces: Vec<(Option<Face>, Vec<usize>)> = Vec::new();
    let mut r0: Vec<usize> = Vec::new();
    r0.push(0);
    r0.push(1);
    r0.push(3);
    r0.push(2);
    faces.push((None, r0));
    let mut r1: Vec<usize> = Vec::new();
    r1.push(2);
    r1.push(3);
    r1.push(7);
    r1.push(6);
    faces.push((None, r1));
    let mut r2: Vec<usize> = Vec::new();
    r2.push(6);
    r2.push(7);
    r2.push(5);
    r2.push(4);
    faces.push((None, r2));
    let mut r3: Vec<usize> = Vec::new();
    r3.push(4);
    r3.push(5);
    r3.push(1);
    r3.push(0);
    faces.push((None, r3));
    let mut r4: Vec<usize> = Vec::new();
    r4.push(2);
    r4.push(6);
    r4.push(4);
    r4.push(0);
    faces.push((None, r4));
    let mut r5: Vec<usize> = Vec::new();
    r5.push(7);
    r5.push(3);
    r5.push(1);
    r5.push(5);
    faces.push((None, r5));
    let poly = Polyhedron { vertices, faces };
    proof {
        assert(verts_view(poly.vertices@) =~= seed_view().vertices);
        assert(faces_view(poly.faces@) =~~= seed_view().faces);
        assert(poly@.vertices =~= seed_view().vertices);
        assert(poly@.faces =~~= seed_view().faces);
        assert forall|i: int| 0 <= i < poly@.faces.len() implies crate::clip::ring_ok(
            (#[trigger] poly@.faces[i]).1,
            poly@.vertices.len(),
        ) by {
            assert(seed_view().faces[i].1.len() == 4);
        }
    }
    poly
}

/// Builds the brush's solid from its ordered face descriptors, mirroring
/// `build_spec`: the seed cube is clipped once per descriptor, in order, and
/// the result is accepted exactly when no untagged seed face survives — so
/// an `Ok` brush has every face carrying its descriptor, and a face list
/// that does not bound a finite region is rejected as `UnclosedBrush`.
#[verifier::rlimit(100)]
pub fn get_polyhedron(faces: Vec<Face>) -> (r: Result<BrushShape, BrushError>)
    requires
        forall|i: int| 0 <= i < faces@.len() ==> (#[trigger] faces@[i]).wf(),
    ensures
        match r {
            Ok(shape) => {
                &&& build_spec(faces@) == Ok::<PolyS<Option<Face>>, BrushError>(shape@)
                &&& shape.wf()
                &&& all_faces_tagged(shape@)
            },
            Err(e) => build_spec(faces@) matches Err(e2) && e2 == e,
        },
{
    let ghost faces0 = faces@;
    let mut poly = seed_polyhedron();
    let mut rest = faces;
    let ghost mut i: int = 0;
    while rest.len() > 0
        invariant
            faces0 == faces@,
            forall|t: int| 0 <= t < faces0.len() ==> (#[trigger] faces0[t]).wf(),
            0 <= i <= faces0.len(),
            i + rest@.len() == faces0.len(),
            rest@ == faces0.skip(i),
            poly.wf(),
            build_step(faces0, i, poly@) == build_step(faces0, 0, seed_view()),
        decreases rest@.len(),
    {
        let ghost poly_before = poly@;
        let f = rest.remove(0);
        proof {
            assert(faces0.skip(i)[0] == faces0[i]);
            assert(f == faces0[i]);
            assert(rest@ =~= faces0.skip(i + 1));
        }
        let e1 = match f.plane.2.sub(&f.plane.0) {
            Some(v) => v,
            None => {
                return Err(BrushError::Clip(ClipError::Overflow));
            },
        };
        let e2 = match f.plane.1.sub(&f.plane.0) {
            Some(v) => v,
            None => {
                return Err(BrushError::Clip(ClipError::Overflow));
            },
        };
        let normal = match e1.cross(&e2) {
            Some(v) => v,
            None => {
                return Err(BrushError::Clip(ClipError::Overflow));
            },
        };
        if normal.is_zero() {
            return Err(BrushError::MalformedPlane);
        }
        let plane_point = f.plane.0;
        match clip_polyhedron_to_plane(&mut poly, &plane_point, &normal, Some(f)) {
            Ok(()) => {},
            Err(e) => {
                proof {
                    assert(build_step(faces0, i, poly_before) == Err::<
                        PolyS<Option<Face>>,
                        BrushError,
                    >(BrushError::Clip(e)));
                }
                return Err(BrushError::Clip(e));
            },
        }
        proof {
            i = i + 1;
        }
    }
    proof {
        assert(i == faces0.len());
        assert(build_step(faces0, 0, seed_view()) == Ok::<PolyS<Option<Face>>, BrushError>(
            poly@,
        ));
    }
    // a surviving untagged face signals an unclosed brush
    let mut k: usize = 0;
    while k < poly.faces.len()
        invariant
            faces0 == faces@,
            k <= poly.faces@.len(),
            forall|t: int| 0 <= t < k ==> (#[trigger] poly@.faces[t]).0 is Some,
            poly.wf(),
            build_step(faces0, 0, seed_view()) == Ok::<PolyS<Option<Face>>, BrushError>(poly@),
        decreases poly.faces@.len() - k,
    {
        if poly.faces[k].0.is_none() {
            proof {
                assert(poly@.faces[k as int].0 is None);
                assert(!all_faces_tagged(poly@));
            }
            return Err(BrushError::UnclosedBrush);
        }
        k += 1;
    }
    proof {
        assert(all_faces_tagged(poly@));
    }
    Ok(poly)
}

/// A brush: its identifier and its built solid.
#[derive(Debug)]
pub struct Brush {
    pub id: i32,
    pub shape: BrushShape,
}

impl Brush {
    /// Whether any face of the brush carries displacement data.
    pub fn has_displacement(&self) -> (r: bool)
        ensures
            r == exists|i: int|
                0 <= i < self.shape@.faces.len() && ((#[trigger] self.shape@.faces[i]).0 matches
                Some(f) && f.dispinfo is Some),
    {
        let mut i: usize = 0;
        while i < self.shape.faces.len()
            invariant
                i <= self.shape.faces@.len(),
                forall|t: int|
                    0 <= t < i ==> !((#[trigger] self.shape@.faces[t]).0 matches Some(f)
                        && f.dispinfo is Some),
            decreases self.shape.faces@.len() - i,
        {
            match &self.shape.faces[i].0 {
                Some(face) => {
                    if face.dispinfo.is_some() {
                        proof {
                            assert((self.shape@.faces[i as int].0 matches Some(f) && f.dispinfo
                                is Some));
                        }
                        return true;
                    }
                },
                None => {},
            }
            i += 1;
        }
        false
    }
}

} // verus!