//! When a system runs: once at startup, or every frame.
//!
//! A system is a unit of per-tick logic over the world and the shared
//! resources. The driver invokes every system tagged [`Schedule::Setup`]
//! exactly once before the frame loop begins, then every system tagged
//! [`Schedule::Loop`] once per frame, in registration order.

use crate::resources::{Resource, ResourcesManager};
use crate::storage::Component;
use crate::world::World;
use vstd::prelude::*;

verus! {

/// The closed set of scheduling tags.
#[derive(Clone, Copy, Debug, PartialEq, Eq, Structural)]
pub enum Schedule {
    /// Run exactly once, before the frame loop begins.
    Setup,
    /// Run once per frame, after the previous frame's render pass.
    Loop,
}

/// A unit of per-tick logic: given mutable access to the world and the
/// resources, it produces zero or more mutations of either. A system
/// signals failure only through the resource-lookup contract, not
/// through a recoverable error channel.
pub trait System<C: Component, R: Resource> {
    /// The tag deciding when the driver invokes this system.
    fn get_schedule(&self) -> Schedule {
        Schedule::Loop
    }

    /// One invocation of the system's logic.
    fn run(&mut self, world: &mut World<C>, resources: &mut ResourcesManager<R>);
}

} // verus!
