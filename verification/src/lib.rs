//! An in-process entity/component/resource runtime for simulation loops.
//!
//! The crate provides the building blocks of a small data-oriented game
//! core: [`EntityManager`] issues and recycles integer entity identifiers,
//! [`ComponentStorage`] is a densely indexed column holding at most one
//! component per entity, [`World`] composes the two behind typed accessors
//! keyed by runtime component kinds, and [`ResourcesManager`] is a
//! singleton-per-kind store for globally shared state. A Wavefront OBJ
//! model parser and a few geometric helper types round the crate off.
//!
//! Every executable function is verified: contracts state how entity
//! identifiers are issued, how component columns grow, and what every
//! accessor returns, and the library-level laws (identifier uniqueness,
//! identifier reuse, storage growth, absence by default, overwrite
//! semantics, first-writer-wins for resources) are proved as lemmas.

mod aabb;
mod components;
mod decimal;
mod entity;
mod event_handler;
mod math;
mod obj_types;
mod parse_obj;
mod resources;
mod schedule;
mod storage;
mod transform;
mod world;

pub use aabb::AABB;
pub use components::{Camerable, Cube};
pub use decimal::Decimal;
pub use entity::{Entity, EntityManager};
pub use event_handler::{
    EventHandler, InputEvent, KeyAction, KeyEvent, MOD_ALT, MOD_CAPS_LOCK, MOD_CONTROL,
    MOD_NONE, MOD_NUM_LOCK, MOD_SHIFT, MOD_SUPER,
};
pub use math::{Mat4, Quaternion, Vec3, Vec4};
pub use obj_types::{
    Face, ParseError, VertexDataReference, VerticeNormal, VerticeParameterSpace, VerticeTexture,
    OBJ,
};
pub use parse_obj::parse_obj;
pub use resources::{Resource, ResourcesManager};
pub use schedule::{Schedule, System};
pub use storage::{Component, ComponentStorage};
pub use transform::Transform;
pub use world::World;
