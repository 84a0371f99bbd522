//! Globally shared, singleton-per-kind state.
//!
//! A [`ResourcesManager`] holds at most one instance per resource
//! *kind* — a small integer chosen by the caller to stand for a resource
//! type, with all resource values sharing one sum type `R`. Resources
//! are established once at startup: the first `add` of a kind wins and
//! later ones are silently ignored, and looking a kind up before it was
//! added is a contract violation, ruled out by `requires` rather than
//! detected at run time.

use vstd::prelude::*;

verus! {

/// Marker for types that may be stored as global resources.
pub trait Resource {}

/// What a registry holds for `kind`: out-of-range slots are empty.
pub open spec fn reg_at<R>(reg: Seq<Option<R>>, kind: int) -> Option<R> {
    if 0 <= kind < reg.len() {
        reg[kind]
    } else {
        None
    }
}

/// The registry that an `add` leaves behind: unchanged when the kind
/// already holds an instance, else grown up to `kind` and set there.
pub open spec fn reg_add<R>(reg: Seq<Option<R>>, kind: int, resource: R) -> Seq<Option<R>> {
    if reg_at(reg, kind) is Some {
        reg
    } else {
        Seq::new(
            if kind + 1 > reg.len() {
                (kind + 1) as nat
            } else {
                reg.len()
            },
            |i: int|
                if i == kind {
                    Some(resource)
                } else {
                    reg_at(reg, i)
                },
        )
    }
}

/// One instance of shared state per resource kind.
pub struct ResourcesManager<R: Resource> {
    store: Vec<Option<R>>,
}

impl<R: Resource> View for ResourcesManager<R> {
    type V = Seq<Option<R>>;

    closed spec fn view(&self) -> Seq<Option<R>> {
        self.store@
    }
}

impl<R: Resource> ResourcesManager<R> {
    /// The instance registered for `kind`, if any.
    pub open spec fn res(self, kind: int) -> Option<R> {
        reg_at(self@, kind)
    }

    /// Registers the sole instance of kind `kind` if none exists yet; a
    /// repeated `add` for a kind already present is silently ignored —
    /// the first writer wins. No other kind is touched.
    pub fn add(&mut self, kind: usize, resource: R)
        ensures
            final(self)@ =~= reg_add(old(self)@, kind as int, resource),
            old(self).res(kind as int) is Some ==> final(self).res(kind as int) == old(
                self,
            ).res(kind as int),
            old(self).res(kind as int) is None ==> final(self).res(kind as int) == Some(
                resource,
            ),
            forall|k: int| k != kind ==> final(self).res(k) == old(self).res(k),
    {
        if kind < self.store.len() {
            let occupied = self.store[kind].is_some();
            if !occupied {
                self.store[kind] = Some(resource);
            }
        } else {
            while self.store.len() < kind
                invariant
                    old(self)@.len() <= self@.len() <= kind,
                    forall|k: int| 0 <= k < old(self)@.len() ==> self@[k] == old(self)@[k],
                    forall|k: int| old(self)@.len() <= k < self@.len() ==> self@[k] is None,
                    old(self)@.len() < kind + 1,
                decreases kind - self@.len(),
            {
                self.store.push(None);
            }
            self.store.push(Some(resource));
        }
    }

    /// The instance of kind `kind`. Callers must have registered it: a
    /// lookup of a kind never added is a misconfiguration to fail fast
    /// on, here excluded by contract.
    pub fn get(&self, kind: usize) -> (r: &R)
        requires
            self.res(kind as int) is Some,
        ensures
            *r == self.res(kind as int).unwrap(),
    {
        self.store[kind].as_ref().unwrap()
    }

    /// A mutable borrow of the instance of kind `kind`, which must have
    /// been registered. Writing through the borrow updates exactly that
    /// kind.
    pub fn get_mut(&mut self, kind: usize) -> (r: &mut R)
        requires
            old(self).res(kind as int) is Some,
        ensures
            *r == old(self).res(kind as int).unwrap(),
            final(self).res(kind as int) == Some(*final(r)),
            forall|k: int| k != kind ==> final(self).res(k) == old(self).res(k),
    {
        let slot = &mut self.store[kind];
        slot.as_mut().unwrap()
    }
}

impl<R: Resource> Default for ResourcesManager<R> {
    /// An empty registry: no kind holds an instance.
    fn default() -> (r: ResourcesManager<R>)
        ensures
            r@ =~= Seq::<Option<R>>::empty(),
            forall|k: int| r.res(k) is None,
    {
        ResourcesManager { store: Vec::new() }
    }
}

/// Resource first-writer-wins: once a kind holds an instance, a second
/// `add` of the same kind changes nothing — after adding `a` and then
/// `b` for one kind, the registry returns a value equal to `a`, not `b`.
pub proof fn lemma_first_writer_wins<R>(reg: Seq<Option<R>>, kind: int, a: R, b: R)
    requires
        0 <= kind,
        reg_at(reg, kind) is None,
    ensures
        reg_at(reg_add(reg_add(reg, kind, a), kind, b), kind) == Some(a),
{
}

} // verus!
