//! A growable, densely indexed, sparse-row component column.
//!
//! [`ComponentStorage`] holds at most one value of a component type per
//! entity identifier: slot *i* of the column belongs to entity *i* and
//! holds either a component or nothing. The column grows on demand to
//! reach the highest inserted index and never shrinks.

use vstd::prelude::*;

verus! {

/// Marker for types that may be attached to entities as components.
pub trait Component {}

/// What a column holds at index `entity`: out-of-range slots are empty.
pub open spec fn col_at<T>(col: Seq<Option<T>>, entity: int) -> Option<T> {
    if 0 <= entity < col.len() {
        col[entity]
    } else {
        None
    }
}

/// The column that an insert leaves behind: grown with empty slots up to
/// and including `entity`, with that slot set and every other kept.
pub open spec fn col_insert<T>(col: Seq<Option<T>>, entity: int, component: T) -> Seq<
    Option<T>,
> {
    Seq::new(
        if entity + 1 > col.len() {
            (entity + 1) as nat
        } else {
            col.len()
        },
        |i: int|
            if i == entity {
                Some(component)
            } else {
                col_at(col, i)
            },
    )
}

/// A sequence of inserts, applied oldest first.
pub open spec fn col_apply<T>(col: Seq<Option<T>>, ops: Seq<(int, T)>) -> Seq<Option<T>>
    decreases ops.len(),
{
    if ops.len() == 0 {
        col
    } else {
        col_apply(col_insert(col, ops.first().0, ops.first().1), ops.drop_first())
    }
}

/// A column of components of type `T`, indexed by entity identifier.
pub struct ComponentStorage<T: Component> {
    data: Vec<Option<T>>,
}

impl<T: Component> View for ComponentStorage<T> {
    type V = Seq<Option<T>>;

    closed spec fn view(&self) -> Seq<Option<T>> {
        self.data@
    }
}

impl<T: Component> ComponentStorage<T> {
    /// The component held for `entity`, if any.
    pub open spec fn spec_at(self, entity: int) -> Option<T> {
        col_at(self@, entity)
    }

    /// An empty column: no entity holds a component.
    pub fn new() -> (r: ComponentStorage<T>)
        ensures
            r@ =~= Seq::<Option<T>>::empty(),
            forall|e: int| r.spec_at(e) is None,
    {
        ComponentStorage { data: Vec::new() }
    }

    /// Sets the slot of `entity`, growing the column with empty slots up
    /// to and including that index first. Any prior value for the entity
    /// is overwritten; every other slot is kept, so the column never
    /// shrinks and earlier inserts below the index are undisturbed.
    pub fn insert(&mut self, entity: usize, component: T)
        ensures
            final(self)@ =~= col_insert(old(self)@, entity as int, component),
            final(self).spec_at(entity as int) == Some(component),
            forall|e: int| e != entity ==> final(self).spec_at(e) == old(self).spec_at(e),
            final(self)@.len() >= old(self)@.len(),
    {
        while self.data.len() <= entity
            invariant
                self@.len() == old(self)@.len() || self@.len() <= entity + 1,
                old(self)@.len() <= self@.len(),
                forall|e: int| 0 <= e < old(self)@.len() && e < self@.len() ==> self@[e] == old(
                    self,
                )@[e],
                forall|e: int| old(self)@.len() <= e < self@.len() ==> self@[e] is None,
            decreases entity + 1 - self@.len(),
        {
            self.data.push(None);
        }
        self.data[entity] = Some(component);
    }

    /// The component for `entity`: absent when the index lies beyond the
    /// column or the slot is empty. Never panics.
    pub fn get(&self, entity: usize) -> (r: Option<&T>)
        ensures
            r is Some <==> self.spec_at(entity as int) is Some,
            r is Some ==> *r.unwrap() == self.spec_at(entity as int).unwrap(),
    {
        if entity < self.data.len() {
            self.data[entity].as_ref()
        } else {
            None
        }
    }

    /// A mutable borrow of the component for `entity`: absent when the
    /// index lies beyond the column or the slot is empty. Writing through
    /// the borrow updates exactly that slot.
    pub fn get_mut(&mut self, entity: usize) -> (r: Option<&mut T>)
        ensures
            old(self).spec_at(entity as int) is None ==> r is None && final(self)@ =~= old(
                self,
            )@,
            old(self).spec_at(entity as int) is Some ==> r is Some && *r.unwrap() == old(
                self,
            ).spec_at(entity as int).unwrap() && final(self)@ =~= old(self)@.update(
                entity as int,
                Some(*final(r.unwrap())),
            ),
    {
        if entity < self.data.len() {
            let slot = &mut self.data[entity];
            slot.as_mut()
        } else {
            None
        }
    }

    /// Empties the slot of `entity` if it lies within the column; a
    /// no-op beyond it. The column keeps its length either way.
    pub fn remove(&mut self, entity: usize)
        ensures
            final(self).spec_at(entity as int) is None,
            forall|e: int| e != entity ==> final(self).spec_at(e) == old(self).spec_at(e),
            final(self)@.len() == old(self)@.len(),
    {
        if entity < self.data.len() {
            self.data[entity] = None;
        }
    }
}

/// Storage growth monotonicity: an insert at index `entity` never
/// shrinks the column and never disturbs the slot of any other entity —
/// in particular every component previously inserted below that index is
/// still there afterwards.
pub proof fn lemma_storage_growth<T>(col: Seq<Option<T>>, entity: int, component: T)
    requires
        0 <= entity,
    ensures
        col_insert(col, entity, component).len() >= col.len(),
        forall|e: int| e != entity ==> col_at(col_insert(col, entity, component), e) == col_at(
            col,
            e,
        ),
        col_at(col_insert(col, entity, component), entity) == Some(component),
{
}

/// Absence by default: an entity that never received an insert holds no
/// component, whatever inserts other entities received — starting from an
/// empty column, any sequence of inserts that never names `entity`
/// leaves its slot empty.
pub proof fn lemma_absence_by_default<T>(ops: Seq<(int, T)>, entity: int)
    requires
        forall|k: int| 0 <= k < ops.len() ==> #[trigger] ops[k].0 != entity,
    ensures
        col_at(col_apply(Seq::<Option<T>>::empty(), ops), entity) is None,
{
    lemma_absence_preserved(Seq::<Option<T>>::empty(), ops, entity);
}

/// Helper for `lemma_absence_by_default`: inserts that never name
/// `entity` preserve an empty slot.
proof fn lemma_absence_preserved<T>(col: Seq<Option<T>>, ops: Seq<(int, T)>, entity: int)
    requires
        col_at(col, entity) is None,
        forall|k: int| 0 <= k < ops.len() ==> #[trigger] ops[k].0 != entity,
    ensures
        col_at(col_apply(col, ops), entity) is None,
    decreases ops.len(),
{
    if ops.len() > 0 {
        assert(ops[0].0 != entity);
        lemma_absence_preserved(col_insert(col, ops.first().0, ops.first().1), ops.drop_first(), entity);
    }
}

/// Overwrite semantics: inserting twice for the same entity leaves only
/// the second component retrievable.
pub proof fn lemma_overwrite<T>(col: Seq<Option<T>>, entity: int, first: T, second: T)
    requires
        0 <= entity,
    ensures
        col_at(col_insert(col_insert(col, entity, first), entity, second), entity) == Some(
            second,
        ),
{
}

} // verus!
