//! The spatial component: position, rotation and scale.

use crate::decimal::Decimal;
use crate::math::{Quaternion, Vec3};
use crate::storage::Component;
use vstd::prelude::*;

verus! {

/// Where an entity stands, how it is turned, and how it is stretched.
#[derive(Clone, Copy, Debug, PartialEq, Eq, Structural)]
pub struct Transform {
    pub position: Vec3,
    pub rotation: Quaternion,
    pub scale: Vec3,
}

impl Component for Transform {

}

impl Transform {
    /// Moves the entity to `new_pos`; rotation and scale are kept.
    pub fn translate(&mut self, new_pos: Vec3)
        ensures
            final(self).position == new_pos,
            final(self).rotation == old(self).rotation,
            final(self).scale == old(self).scale,
    {
        self.position = new_pos;
    }

    /// Sets the scale; position and rotation are kept.
    pub fn scale(&mut self, scale: Vec3)
        ensures
            final(self).scale == scale,
            final(self).position == old(self).position,
            final(self).rotation == old(self).rotation,
    {
        self.scale = scale;
    }

    /// The given object center, stretched by this transform's scale:
    /// the exact componentwise product.
    pub fn center(&self, object_center: Vec3) -> (r: Vec3)
        requires
            self.scale.wf(),
            object_center.wf(),
            object_center.x.mul_fits(self.scale.x),
            object_center.y.mul_fits(self.scale.y),
            object_center.z.mul_fits(self.scale.z),
        ensures
            r.x == object_center.x.spec_mul(self.scale.x),
            r.y == object_center.y.spec_mul(self.scale.y),
            r.z == object_center.z.spec_mul(self.scale.z),
            r.wf(),
    {
        Vec3 {
            x: object_center.x.mul(self.scale.x),
            y: object_center.y.mul(self.scale.y),
            z: object_center.z.mul(self.scale.z),
        }
    }
}

impl Default for Transform {
    /// All components zero: at the origin, unturned, unscaled.
    fn default() -> (r: Transform)
        ensures
            r == (Transform {
                position: Vec3 {
                    x: Decimal { neg: false, mantissa: 0, scale: 0 },
                    y: Decimal { neg: false, mantissa: 0, scale: 0 },
                    z: Decimal { neg: false, mantissa: 0, scale: 0 },
                },
                rotation: Quaternion {
                    x: Decimal { neg: false, mantissa: 0, scale: 0 },
                    y: Decimal { neg: false, mantissa: 0, scale: 0 },
                    z: Decimal { neg: false, mantissa: 0, scale: 0 },
                    w: Decimal { neg: false, mantissa: 0, scale: 0 },
                },
                scale: Vec3 {
                    x: Decimal { neg: false, mantissa: 0, scale: 0 },
                    y: Decimal { neg: false, mantissa: 0, scale: 0 },
                    z: Decimal { neg: false, mantissa: 0, scale: 0 },
                },
            }),
    {
        let z = Decimal::zero();
        Transform {
            position: Vec3 { x: z, y: z, z: z },
            rotation: Quaternion { x: z, y: z, z: z, w: z },
            scale: Vec3 { x: z, y: z, z: z },
        }
    }
}

} // verus!
