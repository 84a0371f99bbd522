//! Small geometric value types over exact decimal scalars.

use crate::decimal::Decimal;
use vstd::prelude::*;

verus! {

/// A three-component vector.
#[derive(Clone, Copy, Debug, PartialEq, Eq, Structural)]
pub struct Vec3 {
    pub x: Decimal,
    pub y: Decimal,
    pub z: Decimal,
}

impl Vec3 {
    /// Every component within bounds and in normal form.
    pub open spec fn wf(self) -> bool {
        self.x.wf() && self.y.wf() && self.z.wf()
    }

    /// The vector with the given components.
    pub fn new(x: Decimal, y: Decimal, z: Decimal) -> (r: Vec3)
        ensures
            r == (Vec3 { x, y, z }),
    {
        Vec3 { x, y, z }
    }

    /// The vector with all components equal to `v`.
    pub fn splat(v: Decimal) -> (r: Vec3)
        ensures
            r == (Vec3 { x: v, y: v, z: v }),
    {
        Vec3 { x: v, y: v, z: v }
    }
}

/// A four-component vector; the model parser stores vertices with their
/// homogeneous coordinate here.
#[derive(Clone, Copy, Debug, PartialEq, Eq, Structural)]
pub struct Vec4 {
    pub x: Decimal,
    pub y: Decimal,
    pub z: Decimal,
    pub w: Decimal,
}

impl Vec4 {
    /// Every component within bounds and in normal form.
    pub open spec fn wf(self) -> bool {
        self.x.wf() && self.y.wf() && self.z.wf() && self.w.wf()
    }

    /// The vector with the given components.
    pub fn new(x: Decimal, y: Decimal, z: Decimal, w: Decimal) -> (r: Vec4)
        ensures
            r == (Vec4 { x, y, z, w }),
    {
        Vec4 { x, y, z, w }
    }
}

/// A rotation, stored as the four quaternion components.
#[derive(Clone, Copy, Debug, PartialEq, Eq, Structural)]
pub struct Quaternion {
    pub x: Decimal,
    pub y: Decimal,
    pub z: Decimal,
    pub w: Decimal,
}

impl Quaternion {
    /// The quaternion with the given components.
    pub fn new(x: Decimal, y: Decimal, z: Decimal, w: Decimal) -> (r: Quaternion)
        ensures
            r == (Quaternion { x, y, z, w }),
    {
        Quaternion { x, y, z, w }
    }
}

/// A four-by-four matrix, row major.
#[derive(Clone, Copy, Debug)]
pub struct Mat4 {
    pub rows: [[Decimal; 4]; 4],
}

impl Mat4 {
    /// The identity matrix.
    pub fn identity() -> (r: Mat4)
        ensures
            forall|i: int, j: int|
                0 <= i < 4 && 0 <= j < 4 ==> r.rows[i][j] == if i == j {
                    (Decimal { neg: false, mantissa: 1, scale: 0 })
                } else {
                    (Decimal { neg: false, mantissa: 0, scale: 0 })
                },
    {
        let o = Decimal::one();
        let z = Decimal::zero();
        Mat4 {
            rows: [[o, z, z, z], [z, o, z, z], [z, z, o, z], [z, z, z, o]],
        }
    }
}

} // verus!
