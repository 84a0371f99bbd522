//! The world: entity identity plus every component column.
//!
//! A [`World`] owns one [`EntityManager`] and one column per component
//! *kind*. A kind is a small integer chosen by the caller to stand for a
//! component type: an explicit form of runtime type identity, which
//! lets unrelated call sites attach whichever component types they
//! choose without a central schema. All component values share one sum
//! type `C` picked by the caller (typically an enum with one variant
//! per component type), and a column is created lazily the first time
//! its kind receives an insert; reading a kind that was never inserted
//! yields absence for every entity, not an error.

use crate::entity::{Entity, EntityManager};
use crate::storage::{col_at, Component, ComponentStorage};
use vstd::prelude::*;

verus! {

/// Entity identity and the per-kind component columns.
pub struct World<C: Component> {
    pub entity_manager: EntityManager,
    columns: Vec<ComponentStorage<C>>,
}

impl<C: Component> World<C> {
    /// How many kinds have a column so far.
    pub closed spec fn spec_kinds(self) -> nat {
        self.columns@.len()
    }

    /// The entity manager, for use in contracts.
    pub closed spec fn em(self) -> EntityManager {
        self.entity_manager
    }

    /// The component of kind `kind` attached to `entity`, if any.
    /// A kind without a column holds nothing for anyone.
    pub closed spec fn comp(self, kind: int, entity: int) -> Option<C> {
        if 0 <= kind < self.columns@.len() {
            col_at(self.columns@[kind]@, entity)
        } else {
            None
        }
    }

    /// Creates a new entity and returns its identifier; no component
    /// changes.
    pub fn spawn(&mut self) -> (id: Entity)
        requires
            old(self).em().wf(),
            old(self).em().spec_next_id() < usize::MAX,
        ensures
            final(self).em().wf(),
            id == old(self).em().spec_create_id(),
            !old(self).em().is_active(id),
            final(self).em().is_active(id),
            forall|other: Entity|
                other != id ==> final(self).em().is_active(other) == old(self).em().is_active(other),
            if old(self).em().spec_free_ids().len() > 0 {
                &&& final(self).em().spec_free_ids() =~= old(self).em().spec_free_ids().drop_last()
                &&& final(self).em().spec_next_id() == old(self).em().spec_next_id()
            } else {
                &&& final(self).em().spec_free_ids() =~= old(self).em().spec_free_ids()
                &&& final(self).em().spec_next_id() == old(self).em().spec_next_id() + 1
            },
            forall|k: int, e: int| final(self).comp(k, e) == old(self).comp(k, e),
    {
        self.entity_manager.create()
    }

    /// Inserts `component` for an already existing entity identifier:
    /// the slot of `(kind, entity)` afterwards holds exactly this value,
    /// every other slot of every kind is kept, and entity identity is
    /// untouched.
    pub fn add_entity_component(&mut self, kind: usize, entity: Entity, component: C)
        ensures
            final(self).comp(kind as int, entity as int) == Some(component),
            forall|k: int, e: int|
                !(k == kind && e == entity) ==> final(self).comp(k, e) == old(self).comp(k, e),
            final(self).em() == old(self).em(),
    {
        while self.columns.len() <= kind
            invariant
                self.columns@.len() == old(self).columns@.len() || self.columns@.len() <= kind
                    + 1,
                old(self).columns@.len() <= self.columns@.len(),
                self.entity_manager == old(self).em(),
                forall|k: int|
                    0 <= k < old(self).columns@.len() ==> self.columns@[k] == old(self).columns@[k],
                forall|k: int|
                    old(self).columns@.len() <= k < self.columns@.len()
                        ==> self.columns@[k]@.len() == 0,
            decreases kind + 1 - self.columns@.len(),
        {
            self.columns.push(ComponentStorage::new());
        }
        let column = &mut self.columns[kind];
        column.insert(entity, component);
        proof {
            assert forall|k: int, e: int| !(k == kind && e == entity) implies self.comp(k, e)
                == old(self).comp(k, e) by {
            }
        }
    }

    /// Creates a new entity and attaches `component` of kind `kind` to
    /// it — a fire-and-forget convenience. The new identifier is the one
    /// `spawn` would have returned.
    pub fn add_component(&mut self, kind: usize, component: C)
        requires
            old(self).em().wf(),
            old(self).em().spec_next_id() < usize::MAX,
        ensures
            final(self).em().wf(),
            final(self).em().is_active(old(self).em().spec_create_id()),
            final(self).comp(
                kind as int,
                old(self).em().spec_create_id() as int,
            ) == Some(component),
            forall|k: int, e: int|
                !(k == kind && e == old(self).em().spec_create_id()) ==> final(self).comp(k, e) == old(self).comp(k, e),
            forall|other: Entity|
                other != old(self).em().spec_create_id() ==> final(self).em().is_active(other) == old(self).em().is_active(other),
    {
        let entity = self.spawn();
        self.add_entity_component(kind, entity, component);
    }

    /// The component of kind `kind` attached to `entity`: absent when
    /// that kind was never inserted for anyone, or never for this
    /// entity. Never panics.
    pub fn with_components_1(&self, kind: usize, entity: Entity) -> (r: Option<&C>)
        ensures
            r is Some <==> self.comp(kind as int, entity as int) is Some,
            r is Some ==> *r.unwrap() == self.comp(kind as int, entity as int).unwrap(),
    {
        if kind < self.columns.len() {
            self.columns[kind].get(entity)
        } else {
            None
        }
    }

    /// A three-component read join on one entity: each position is the
    /// component of the respective kind, absent independently of the
    /// others.
    pub fn with_components_3(&self, kind_a: usize, kind_b: usize, kind_c: usize, entity: Entity)
        -> (r: (Option<&C>, Option<&C>, Option<&C>))
        ensures
            r.0 is Some <==> self.comp(kind_a as int, entity as int) is Some,
            r.0 is Some ==> *r.0.unwrap() == self.comp(kind_a as int, entity as int).unwrap(),
            r.1 is Some <==> self.comp(kind_b as int, entity as int) is Some,
            r.1 is Some ==> *r.1.unwrap() == self.comp(kind_b as int, entity as int).unwrap(),
            r.2 is Some <==> self.comp(kind_c as int, entity as int) is Some,
            r.2 is Some ==> *r.2.unwrap() == self.comp(kind_c as int, entity as int).unwrap(),
    {
        (
            self.with_components_1(kind_a, entity),
            self.with_components_1(kind_b, entity),
            self.with_components_1(kind_c, entity),
        )
    }

    /// A mutable borrow of the component of kind `kind` attached to
    /// `entity`. Writing through the borrow updates exactly that slot;
    /// when the component is absent nothing changes.
    pub fn with_components_mut_1(&mut self, kind: usize, entity: Entity) -> (r: Option<
        &mut C,
    >)
        ensures
            old(self).comp(kind as int, entity as int) is None ==> r is None && final(self).comp(kind as int, entity as int) is None,
            old(self).comp(kind as int, entity as int) is Some ==> r is Some && *r.unwrap()
                == old(self).comp(kind as int, entity as int).unwrap(),
            old(self).comp(kind as int, entity as int) is Some ==> final(self).comp(
                kind as int,
                entity as int,
            ) == Some(*final(r.unwrap())),
            forall|k: int, e: int|
                !(k == kind && e == entity) ==> final(self).comp(k, e) == old(self).comp(k, e),
            final(self).em() == old(self).em(),
    {
        if kind < self.columns.len() {
            let column = &mut self.columns[kind];
            column.get_mut(entity)
        } else {
            None
        }
    }

    /// A two-component mutable join on one entity: simultaneous mutable
    /// borrows of the components of two *different* kinds. Each position
    /// mirrors the slot of its kind, and writing through either borrow
    /// updates exactly that slot. Two overlapping borrows of the same
    /// kind are ruled out, just as two overlapping locks of one
    /// per-type guard would be.
    pub fn with_components_mut_2(&mut self, kind_a: usize, kind_b: usize, entity: Entity) -> (r:
        (Option<&mut C>, Option<&mut C>))
        requires
            kind_a != kind_b,
        ensures
            r.0 is Some <==> old(self).comp(kind_a as int, entity as int) is Some,
            r.1 is Some <==> old(self).comp(kind_b as int, entity as int) is Some,
            r.0 is Some ==> *r.0.unwrap() == old(self).comp(kind_a as int, entity as int).unwrap()
                && final(self).comp(kind_a as int, entity as int) == Some(*final(r.0.unwrap())),
            r.1 is Some ==> *r.1.unwrap() == old(self).comp(kind_b as int, entity as int).unwrap()
                && final(self).comp(kind_b as int, entity as int) == Some(*final(r.1.unwrap())),
            r.0 is None ==> final(self).comp(kind_a as int, entity as int) is None,
            r.1 is None ==> final(self).comp(kind_b as int, entity as int) is None,
            forall|k: int, e: int|
                !(k == kind_a && e == entity) && !(k == kind_b && e == entity)
                    ==> final(self).comp(k, e) == old(self).comp(k, e),
            final(self).em() == old(self).em(),
    {
        let n = self.columns.len();
        let lo = if kind_a < kind_b {
            kind_a
        } else {
            kind_b
        };
        let hi = if kind_a < kind_b {
            kind_b
        } else {
            kind_a
        };
        if hi < n {
            let cols = self.columns.as_mut_slice();
            let (_pre, rest) = cols.split_at_mut(lo);
            let (left, right) = rest.split_at_mut(hi - lo);
            let lo_col = left.first_mut().unwrap();
            let hi_col = right.first_mut().unwrap();
            let lo_r = lo_col.get_mut(entity);
            let hi_r = hi_col.get_mut(entity);
            if kind_a < kind_b {
                (lo_r, hi_r)
            } else {
                (hi_r, lo_r)
            }
        } else if lo < n {
            let column = &mut self.columns[lo];
            let lo_r = column.get_mut(entity);
            if kind_a < kind_b {
                (lo_r, None)
            } else {
                (None, lo_r)
            }
        } else {
            (None, None)
        }
    }

    /// Empties the slot of `(kind, entity)` if that kind has a column; a
    /// no-op otherwise. Every other slot and entity identity are kept.
    pub fn remove_component(&mut self, kind: usize, entity: Entity)
        ensures
            final(self).comp(kind as int, entity as int) is None,
            forall|k: int, e: int|
                !(k == kind && e == entity) ==> final(self).comp(k, e) == old(self).comp(k, e),
            final(self).em() == old(self).em(),
    {
        if kind < self.columns.len() {
            let column = &mut self.columns[kind];
            column.remove(entity);
            proof {
                assert forall|k: int, e: int| !(k == kind && e == entity) implies self.comp(
                    k,
                    e,
                ) == old(self).comp(k, e) by {
                    if 0 <= k < self.columns@.len() {
                        if k != kind {
                            assert(self.columns@[k] == old(self).columns@[k]);
                        } else {
                            assert(self.columns@[k].spec_at(e) == old(
                                self,
                            ).columns@[k].spec_at(e));
                        }
                    }
                }
            }
        }
    }

    /// Destroys an entity identifier: it delegates to the entity
    /// manager only and clears no component storage — stale component
    /// values stay reachable if the identifier is later reused, until
    /// they are overwritten or removed.
    pub fn destroy_entity(&mut self, entity: Entity)
        requires
            old(self).em().wf(),
            old(self).em().is_active(entity),
        ensures
            final(self).em().wf(),
            !final(self).em().is_active(entity),
            forall|other: Entity|
                other != entity ==> final(self).em().is_active(other) == old(self).em().is_active(other),
            final(self).em().spec_free_ids() =~= old(self).em().spec_free_ids().push(entity),
            final(self).em().spec_next_id() == old(self).em().spec_next_id(),
            forall|k: int, e: int| final(self).comp(k, e) == old(self).comp(k, e),
    {
        self.entity_manager.destroy(entity);
    }
}

impl<C: Component> Default for World<C> {
    /// An empty world: a fresh entity manager and no component column.
    fn default() -> (r: World<C>)
        ensures
            r.em().spec_next_id() == 0,
            r.em().spec_free_ids() =~= Seq::<Entity>::empty(),
            r.em().wf(),
            r.spec_kinds() == 0,
            forall|k: int, e: int| r.comp(k, e) is None,
    {
        World { entity_manager: EntityManager::default(), columns: Vec::new() }
    }
}

} // verus!
