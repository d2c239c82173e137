//! Triangle output for flat faces, and the vertex buffer layout of the
//! emitted lists.
//!
//! A flat (non-displacement) face of a built brush fans into triangles
//! around its first loop vertex; every emitted vertex carries the face's
//! outward normal, a projected texture coordinate, and a zero alpha. The
//! meshers hand a renderer flat per-vertex attribute buffers; each
//! attribute carries a fixed number of scalar components per vertex.

use crate::clip::verts_view;
use crate::displacement::{uv_point_spec, MeshError, MeshVertex, MeshVertexS, UVAxis};
use crate::rational::{rs_int, Ratio};
use crate::vector::{
    vs_cross, vs_cross_ok, vs_is_zero, vs_sub, vs_sub_ok, Vec3R, Vec3S,
};
use vstd::prelude::*;

verus! {

/// How many scalar components one vertex attribute holds: a single scalar
/// (alpha), a texture coordinate pair, a position or normal triple, or a
/// four-component color.
#[derive(Clone, Copy, Debug, PartialEq, Eq, Structural)]
pub enum VertexSize {
    VEC1,
    VEC2,
    VEC3,
    VEC4,
}

/// The number of scalar components per vertex of an attribute.
pub open spec fn spec_components(s: VertexSize) -> int {
    match s {
        VertexSize::VEC1 => 1,
        VertexSize::VEC2 => 2,
        VertexSize::VEC3 => 3,
        VertexSize::VEC4 => 4,
    }
}

impl VertexSize {
    /// The number of scalar components per vertex.
    pub fn components(&self) -> (r: usize)
        ensures
            r == spec_components(*self),
            1 <= r <= 4,
    {
        match self {
            VertexSize::VEC1 => 1,
            VertexSize::VEC2 => 2,
            VertexSize::VEC3 => 3,
            VertexSize::VEC4 => 4,
        }
    }

    /// How many whole vertices a flat buffer of this attribute holds.
    pub fn vertex_count(&self, buffer_len: usize) -> (r: usize)
        ensures
            r == buffer_len as int / spec_components(*self),
    {
        buffer_len / self.components()
    }
}

/// The outward (unnormalized) normal of a flat face: the cross product of
/// its first two loop edges. Its direction is what a renderer needs; its
/// length does not affect the half-space or the winding.
pub open spec fn flat_normal_spec(verts: Seq<Vec3S>, ring: Seq<usize>) -> Result<
    Vec3S,
    MeshError,
> {
    let v0 = verts[ring[0] as int];
    let v1 = verts[ring[1] as int];
    let v2 = verts[ring[2] as int];
    if !vs_sub_ok(v1, v0) {
        Err(MeshError::Overflow)
    } else if !vs_sub_ok(v2, v0) {
        Err(MeshError::Overflow)
    } else if !vs_cross_ok(vs_sub(v1, v0), vs_sub(v2, v0)) {
        Err(MeshError::Overflow)
    } else if vs_is_zero(vs_cross(vs_sub(v1, v0), vs_sub(v2, v0))) {
        Err(MeshError::ZeroFaceNormal)
    } else {
        Ok(vs_cross(vs_sub(v1, v0), vs_sub(v2, v0)))
    }
}

/// The `k`-th vertex of a flat face's fan: triangle `k / 3` uses the loop's
/// first vertex and the pair that follows it around the loop, so the face
/// becomes `len - 2` triangles with consistent winding.
pub open spec fn flat_vertex_spec(
    verts: Seq<Vec3S>,
    ring: Seq<usize>,
    normal: Vec3S,
    ua: UVAxis,
    va: UVAxis,
    k: int,
) -> Result<MeshVertexS, MeshError> {
    let tri = k / 3;
    let role = k % 3;
    let idx = if role == 0 {
        ring[0] as int
    } else {
        ring[tri + role]  as int
    };
    let pos = verts[idx];
    match uv_point_spec(ua, va, pos) {
        Err(e) => Err(e),
        Ok(uv) => Ok(
            MeshVertexS { position: pos, normal, u: uv.0, v: uv.1, alpha: rs_int(0) },
        ),
    }
}

/// The first malformed fan vertex in emission order, if any.
pub open spec fn first_flat_err(
    verts: Seq<Vec3S>,
    ring: Seq<usize>,
    normal: Vec3S,
    ua: UVAxis,
    va: UVAxis,
    k: int,
    total: int,
) -> Option<MeshError>
    decreases total - k,
{
    if k >= total {
        None
    } else {
        match flat_vertex_spec(verts, ring, normal, ua, va, k) {
            Err(e) => Some(e),
            Ok(_) => first_flat_err(verts, ring, normal, ua, va, k + 1, total),
        }
    }
}

/// Fans one flat face into its triangle list: `len - 2` triangles around
/// the loop's first vertex, every vertex carrying the face's outward
/// normal, its projected texture coordinates, and a zero alpha. The list is
/// exactly `flat_vertex_spec` at every index, or the first malformed vertex
/// in emission order is reported.
pub fn flat_face_vertices(
    verts: &Vec<Vec3R>,
    ring: &Vec<usize>,
    uaxis: &UVAxis,
    vaxis: &UVAxis,
) -> (r: Result<Vec<MeshVertex>, MeshError>)
    requires
        forall|t: int| 0 <= t < verts@.len() ==> (#[trigger] verts@[t]).wf(),
        forall|j: int| 0 <= j < ring@.len() ==> (#[trigger] ring@[j]) < verts@.len(),
        ring@.len() >= 3,
        3 * (ring@.len() - 2) <= usize::MAX,
        uaxis.wf(),
        vaxis.wf(),
    ensures
        ({
            let vv = verts_view(verts@);
            let total = 3 * (ring@.len() - 2);
            match r {
                Ok(out) => {
                    &&& flat_normal_spec(vv, ring@) matches Ok(nrm) && first_flat_err(
                        vv,
                        ring@,
                        nrm,
                        *uaxis,
                        *vaxis,
                        0,
                        total as int,
                    ) is None && out@.len() == total && (forall|k: int|
                        0 <= k < total ==> #[trigger] flat_vertex_spec(
                            vv,
                            ring@,
                            nrm,
                            *uaxis,
                            *vaxis,
                            k,
                        ) == Ok::<MeshVertexS, MeshError>(out@[k]@)) && (forall|k: int|
                        0 <= k < total ==> (#[trigger] out@[k]).wf())
                },
                Err(e) => flat_normal_spec(vv, ring@) == Err::<Vec3S, MeshError>(e) || (
                flat_normal_spec(vv, ring@) matches Ok(nrm) && first_flat_err(
                    vv,
                    ring@,
                    nrm,
                    *uaxis,
                    *vaxis,
                    0,
                    total as int,
                ) == Some(e)),
            }
        }),
{
    let ghost vv = verts_view(verts@);
    let v0 = verts[ring[0]];
    let v1 = verts[ring[1]];
    let v2 = verts[ring[2]];
    let e1 = match v1.sub(&v0) {
        Some(v) => v,
        None => {
            return Err(MeshError::Overflow);
        },
    };
    let e2 = match v2.sub(&v0) {
        Some(v) => v,
        None => {
            return Err(MeshError::Overflow);
        },
    };
    let normal = match e1.cross(&e2) {
        Some(v) => v,
        None => {
            return Err(MeshError::Overflow);
        },
    };
    if normal.is_zero() {
        return Err(MeshError::ZeroFaceNormal);
    }
    let ghost nrm = normal@;
    let total = 3 * (ring.len() - 2);
    let ghost total_s = total as int;
    let mut out: Vec<MeshVertex> = Vec::new();
    let mut k: usize = 0;
    while k < total
        invariant
            forall|t: int| 0 <= t < verts@.len() ==> (#[trigger] verts@[t]).wf(),
            forall|j: int| 0 <= j < ring@.len() ==> (#[trigger] ring@[j]) < verts@.len(),
            ring@.len() >= 3,
            3 * (ring@.len() - 2) <= usize::MAX,
            uaxis.wf(),
            vaxis.wf(),
            normal.wf(),
            nrm == normal@,
            flat_normal_spec(vv, ring@) == Ok::<Vec3S, MeshError>(nrm),
            vv == verts_view(verts@),
            total == 3 * (ring@.len() - 2),
            total_s == total as int,
            k <= total,
            out@.len() == k,
            first_flat_err(vv, ring@, nrm, *uaxis, *vaxis, 0, total_s) == first_flat_err(
                vv,
                ring@,
                nrm,
                *uaxis,
                *vaxis,
                k as int,
                total_s,
            ),
            forall|t: int|
                0 <= t < k ==> #[trigger] flat_vertex_spec(vv, ring@, nrm, *uaxis, *vaxis, t)
                    == Ok::<MeshVertexS, MeshError>(out@[t]@),
            forall|t: int| 0 <= t < k ==> (#[trigger] out@[t]).wf(),
        decreases total - k,
    {
        let tri = k / 3;
        let role = k % 3;
        proof {
            crate::displacement::lemma_div_bound(k as int, 3, ring@.len() - 2);
            vstd::arithmetic::div_mod::lemma_mod_bound(k as int, 3);
        }
        let idx = if role == 0 {
            ring[0]
        } else {
            ring[tri + role]
        };
        let pos = verts[idx];
        match crate::displacement::get_uv_point(uaxis, vaxis, &pos) {
            Ok(uv) => {
                out.push(
                    MeshVertex {
                        position: pos,
                        normal,
                        u: uv.0,
                        v: uv.1,
                        alpha: Ratio::zero(),
                    },
                );
            },
            Err(e) => {
                return Err(e);
            },
        }
        k += 1;
    }
    Ok(out)
}

} // verus!
