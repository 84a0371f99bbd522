//! Entity identifiers and their lifecycle.
//!
//! An entity is an opaque non-negative integer used as a key into the
//! component columns; it carries no data of its own. [`EntityManager`]
//! issues fresh identifiers from a monotonic counter and recycles
//! destroyed ones through a stack of free identifiers.

use vstd::prelude::*;

verus! {

/// An entity identifier. Purely a key: it carries no data.
pub type Entity = usize;

/// Issues and recycles entity identifiers.
///
/// `next_id` is a monotonic counter; `free_ids` is a stack of recycled
/// identifiers. An identifier is *active* when it has been issued
/// (it is below `next_id`) and is not currently on the free stack.
pub struct EntityManager {
    next_id: Entity,
    free_ids: Vec<Entity>,
}

impl EntityManager {
    /// The monotonic counter: every identifier ever issued is below it.
    pub closed spec fn spec_next_id(self) -> nat {
        self.next_id as nat
    }

    /// The stack of identifiers that may be reused, most recent on top.
    pub closed spec fn spec_free_ids(self) -> Seq<Entity> {
        self.free_ids@
    }

    /// Well-formedness: the free stack holds no duplicates and only
    /// identifiers that were issued before. It holds for a fresh manager
    /// and is preserved by `create` and by `destroy` of an active
    /// identifier (the documented caller obligation).
    pub open spec fn wf(self) -> bool {
        &&& forall|i: int, j: int|
            0 <= i < j < self.spec_free_ids().len() ==> self.spec_free_ids()[i]
                != self.spec_free_ids()[j]
        &&& forall|i: int|
            0 <= i < self.spec_free_ids().len() ==> (self.spec_free_ids()[i] as nat)
                < self.spec_next_id()
    }

    /// An identifier currently in use: issued, and not on the free stack.
    pub open spec fn is_active(self, id: Entity) -> bool {
        (id as nat) < self.spec_next_id() && !self.spec_free_ids().contains(id)
    }

    /// The identifier that the next `create` returns: the top of the
    /// free stack if one is waiting, else the monotonic counter.
    pub open spec fn spec_create_id(self) -> Entity {
        if self.spec_free_ids().len() > 0 {
            self.spec_free_ids().last()
        } else {
            self.spec_next_id() as usize
        }
    }

    /// Returns a fresh or recycled identifier in constant time.
    ///
    /// If the free stack is non-empty its top is popped and returned;
    /// otherwise the monotonic counter is returned and advanced. Either
    /// way the returned identifier was not active before the call and is
    /// active after it, and no other identifier changes state.
    pub fn create(&mut self) -> (id: Entity)
        requires
            old(self).wf(),
            old(self).spec_next_id() < usize::MAX,
        ensures
            final(self).wf(),
            id == old(self).spec_create_id(),
            !old(self).is_active(id),
            final(self).is_active(id),
            forall|other: Entity|
                other != id ==> final(self).is_active(other) == old(self).is_active(other),
            if old(self).spec_free_ids().len() > 0 {
                &&& id == old(self).spec_free_ids().last()
                &&& final(self).spec_free_ids() =~= old(self).spec_free_ids().drop_last()
                &&& final(self).spec_next_id() == old(self).spec_next_id()
            } else {
                &&& id as nat == old(self).spec_next_id()
                &&& final(self).spec_free_ids() =~= old(self).spec_free_ids()
                &&& final(self).spec_next_id() == old(self).spec_next_id() + 1
            },
    {
        if let Some(id) = self.free_ids.pop() {
            proof {
                let prev = old(self).spec_free_ids();
                let cur = self.spec_free_ids();
                assert(prev.contains(id)) by {
                    assert(prev.last() == id);
                }
                assert forall|other: Entity| other != id implies self.is_active(other) == old(
                    self,
                ).is_active(other) by {
                    if prev.contains(other) {
                        let k = choose|k: int| 0 <= k < prev.len() && prev[k] == other;
                        assert(k < prev.len() - 1);
                        assert(cur[k] == other);
                    }
                }
            }
            id
        } else {
            let id = self.next_id;
            self.next_id = self.next_id + 1;
            id
        }
    }

    /// Marks `entity` reusable.
    ///
    /// The identifier goes on top of the free stack and stops being
    /// active; nothing else changes. Destroying an identifier that is
    /// not active is the caller misuse the contract rules out: it would
    /// put a duplicate (or a never-issued identifier) on the stack.
    pub fn destroy(&mut self, entity: Entity)
        requires
            old(self).wf(),
            old(self).is_active(entity),
        ensures
            final(self).wf(),
            !final(self).is_active(entity),
            forall|other: Entity|
                other != entity ==> final(self).is_active(other) == old(self).is_active(other),
            final(self).spec_free_ids() =~= old(self).spec_free_ids().push(entity),
            final(self).spec_next_id() == old(self).spec_next_id(),
    {
        self.free_ids.push(entity);
        proof {
            let prev = old(self).spec_free_ids();
            let cur = self.spec_free_ids();
            assert(cur.contains(entity)) by {
                assert(cur.last() == entity);
            }
            assert forall|other: Entity| other != entity implies self.is_active(other) == old(
                self,
            ).is_active(other) by {
                if prev.contains(other) {
                    let k = choose|k: int| 0 <= k < prev.len() && prev[k] == other;
                    assert(cur[k] == other);
                } else if cur.contains(other) {
                    let k = choose|k: int| 0 <= k < cur.len() && cur[k] == other;
                    assert(k < prev.len());
                }
            }
        }
    }

    /// Every active identifier, in ascending order.
    ///
    /// The sequence is recomputed on each call; it lists exactly the
    /// identifiers in `[0, next_id)` that are not on the free stack,
    /// each one once, strictly ascending.
    pub fn active_entities(&self) -> (r: Vec<Entity>)
        ensures
            forall|i: int, j: int| 0 <= i < j < r@.len() ==> r@[i] < r@[j],
            forall|id: Entity| r@.contains(id) == self.is_active(id),
    {
        let mut r: Vec<Entity> = Vec::new();
        let mut id: usize = 0;
        while id < self.next_id
            invariant
                id <= self.next_id,
                forall|i: int, j: int| 0 <= i < j < r@.len() ==> r@[i] < r@[j],
                forall|i: int| 0 <= i < r@.len() ==> r@[i] < id,
                forall|e: Entity| (e as nat) < (id as nat) ==> r@.contains(e) == self.is_active(e),
            decreases self.next_id - id,
        {
            let ghost prev = r@;
            let mut on_free_stack = false;
            let mut k: usize = 0;
            while k < self.free_ids.len()
                invariant
                    k <= self.free_ids.len(),
                    on_free_stack == exists|i: int| 0 <= i < k && self.spec_free_ids()[i] == id,
                decreases self.free_ids.len() - k,
            {
                if self.free_ids[k] == id {
                    on_free_stack = true;
                }
                proof {
                    if self.spec_free_ids()[k as int] == id {
                        assert(0 <= k < k + 1 && self.spec_free_ids()[k as int] == id);
                    }
                }
                k += 1;
            }
            proof {
                assert(on_free_stack == self.spec_free_ids().contains(id));
            }
            if !on_free_stack {
                r.push(id);
            }
            proof {
                assert forall|e: Entity| (e as nat) < (id as nat) + 1 implies r@.contains(e)
                    == self.is_active(e) by {
                    if (e as nat) < (id as nat) {
                        if prev.contains(e) {
                            let k = choose|k: int| 0 <= k < prev.len() && prev[k] == e;
                            assert(r@[k] == e);
                        } else if r@.contains(e) {
                            let k = choose|k: int| 0 <= k < r@.len() && r@[k] == e;
                            assert(k < prev.len());
                        }
                    } else {
                        assert(e == id);
                        if !on_free_stack {
                            assert(r@.last() == id);
                        } else if r@.contains(e) {
                            let k = choose|k: int| 0 <= k < r@.len() && r@[k] == e;
                            assert(r@[k] < id);
                        }
                    }
                }
            }
            id += 1;
        }
        r
    }
}

impl Default for EntityManager {
    /// A fresh manager: no identifier issued, none recycled.
    fn default() -> (r: EntityManager)
        ensures
            r.spec_next_id() == 0,
            r.spec_free_ids() =~= Seq::<Entity>::empty(),
            r.wf(),
    {
        EntityManager { next_id: 0, free_ids: Vec::new() }
    }
}

/// Identifier uniqueness: however `create` and `destroy` have been
/// called, a listing of the active identifiers in ascending order (as
/// `active_entities` returns) names no identifier twice — no two
/// simultaneously active entities share an identifier.
pub proof fn lemma_active_ids_unique(m: EntityManager, r: Seq<Entity>)
    requires
        forall|i: int, j: int| 0 <= i < j < r.len() ==> r[i] < r[j],
        forall|id: Entity| r.contains(id) == m.is_active(id),
    ensures
        forall|i: int, j: int| 0 <= i < j < r.len() ==> r[i] != r[j],
{
}

/// Identifier reuse: destroying an active identifier leaves it inactive,
/// and it sits on top of the free stack, so by the contract of `create`
/// the very next `create` returns exactly this identifier and makes it
/// active again. Until that call, `active_entities` excludes it.
pub proof fn lemma_id_reuse(before: EntityManager, after: EntityManager, e: Entity)
    requires
        before.wf(),
        before.is_active(e),
        after.spec_free_ids() =~= before.spec_free_ids().push(e),
        after.spec_next_id() == before.spec_next_id(),
    ensures
        !after.is_active(e),
        after.spec_free_ids().len() > 0,
        after.spec_free_ids().last() == e,
        after.spec_create_id() == e,
{
    assert(after.spec_free_ids().last() == e);
    assert(after.spec_free_ids().contains(e));
}

} // verus!
