//! Axis-aligned bounding boxes.

use crate::decimal::{lemma_max_keeps_upper, lemma_min_keeps_lower};
use crate::math::{Vec3, Vec4};
use vstd::prelude::*;

verus! {

/// The smallest axis-aligned box around a set of points: a componentwise
/// minimum and maximum corner.
#[derive(Clone, Copy, Debug, PartialEq, Eq, Structural)]
pub struct AABB {
    pub min: Vec3,
    pub max: Vec3,
}

impl AABB {
    /// The bounding box of a non-empty vertex list: each component of
    /// `min` is below-or-equal every vertex and attained by one of them,
    /// and likewise `max` from above. The homogeneous coordinate plays
    /// no part.
    pub fn from(vertices: &Vec<Vec4>) -> (r: AABB)
        requires
            vertices@.len() > 0,
            forall|i: int| 0 <= i < vertices@.len() ==> (#[trigger] vertices@[i]).wf(),
        ensures
            forall|i: int|
                0 <= i < vertices@.len() ==> r.min.x.spec_le(#[trigger] vertices@[i].x)
                    && r.min.y.spec_le(vertices@[i].y) && r.min.z.spec_le(vertices@[i].z),
            forall|i: int|
                0 <= i < vertices@.len() ==> (#[trigger] vertices@[i].x).spec_le(r.max.x)
                    && vertices@[i].y.spec_le(r.max.y) && vertices@[i].z.spec_le(r.max.z),
            exists|i: int| 0 <= i < vertices@.len() && r.min.x == #[trigger] vertices@[i].x,
            exists|i: int| 0 <= i < vertices@.len() && r.min.y == #[trigger] vertices@[i].y,
            exists|i: int| 0 <= i < vertices@.len() && r.min.z == #[trigger] vertices@[i].z,
            exists|i: int| 0 <= i < vertices@.len() && r.max.x == #[trigger] vertices@[i].x,
            exists|i: int| 0 <= i < vertices@.len() && r.max.y == #[trigger] vertices@[i].y,
            exists|i: int| 0 <= i < vertices@.len() && r.max.z == #[trigger] vertices@[i].z,
            r.min.wf(),
            r.max.wf(),
    {
        let first = &vertices[0];
        let mut low = Vec3 { x: first.x, y: first.y, z: first.z };
        let mut high = Vec3 { x: first.x, y: first.y, z: first.z };
        let mut i: usize = 1;
        while i < vertices.len()
            invariant
                1 <= i <= vertices@.len(),
                forall|k: int| 0 <= k < vertices@.len() ==> (#[trigger] vertices@[k]).wf(),
                forall|k: int|
                    0 <= k < i ==> low.x.spec_le(#[trigger] vertices@[k].x) && low.y.spec_le(
                        vertices@[k].y,
                    ) && low.z.spec_le(vertices@[k].z),
                forall|k: int|
                    0 <= k < i ==> (#[trigger] vertices@[k].x).spec_le(high.x)
                        && vertices@[k].y.spec_le(high.y) && vertices@[k].z.spec_le(high.z),
                exists|k: int| 0 <= k < i && low.x == #[trigger] vertices@[k].x,
                exists|k: int| 0 <= k < i && low.y == #[trigger] vertices@[k].y,
                exists|k: int| 0 <= k < i && low.z == #[trigger] vertices@[k].z,
                exists|k: int| 0 <= k < i && high.x == #[trigger] vertices@[k].x,
                exists|k: int| 0 <= k < i && high.y == #[trigger] vertices@[k].y,
                exists|k: int| 0 <= k < i && high.z == #[trigger] vertices@[k].z,
                low.wf(),
                high.wf(),
            decreases vertices@.len() - i,
        {
            let v = &vertices[i];
            let ghost prev_low = low;
            let ghost prev_high = high;
            low = Vec3 {
                x: low.x.min_of(v.x),
                y: low.y.min_of(v.y),
                z: low.z.min_of(v.z),
            };
            high = Vec3 {
                x: high.x.max_of(v.x),
                y: high.y.max_of(v.y),
                z: high.z.max_of(v.z),
            };
            proof {
                let vv = vertices@[i as int];
                assert forall|k: int| 0 <= k < i + 1 implies low.x.spec_le(
                    #[trigger] vertices@[k].x,
                ) && low.y.spec_le(vertices@[k].y) && low.z.spec_le(vertices@[k].z) by {
                    if k < i {
                        lemma_min_keeps_lower(prev_low.x, vv.x, vertices@[k].x);
                        lemma_min_keeps_lower(prev_low.y, vv.y, vertices@[k].y);
                        lemma_min_keeps_lower(prev_low.z, vv.z, vertices@[k].z);
                    }
                }
                assert forall|k: int| 0 <= k < i + 1 implies (#[trigger] vertices@[k].x).spec_le(
                    high.x,
                ) && vertices@[k].y.spec_le(high.y) && vertices@[k].z.spec_le(high.z) by {
                    if k < i {
                        lemma_max_keeps_upper(prev_high.x, vv.x, vertices@[k].x);
                        lemma_max_keeps_upper(prev_high.y, vv.y, vertices@[k].y);
                        lemma_max_keeps_upper(prev_high.z, vv.z, vertices@[k].z);
                    }
                }
            }
            i = i + 1;
        }
        AABB { min: low, max: high }
    }
}

} // verus!
