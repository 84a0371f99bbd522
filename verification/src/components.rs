//! Stock components and behaviours.

use crate::math::Mat4;
use crate::storage::Component;
use vstd::prelude::*;

verus! {

/// Marks an entity as the cube mesh; the drawable data itself lives
/// with the renderer, outside the verified core.
#[derive(Clone, Copy, Debug, PartialEq, Eq, Structural, Default)]
pub struct Cube;

impl Component for Cube {

}

/// An entity that may replace the current view matrix used by the
/// render pass.
pub trait Camerable {
    /// The view matrix this entity asks the renderer to use.
    fn get_view_matrix(&self) -> Mat4;
}

} // verus!
