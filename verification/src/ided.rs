//! An entity paired with its identifier.

use vstd::prelude::*;
use vstd::std_specs::cmp::PartialOrdSpec;

use crate::id::Id;
use crate::identifiable::Identifiable;

verus! {

/// Short for "Identified": wraps a struct and its identifier.
///
/// The concrete type should most often be defined with only one
/// identifiable type, as in `Ided<Invoice>`, but it is also possible to
/// wrap an object with a not directly linked id, as in
/// `Ided<Invoice, InvoiceExpanded>`.
///
/// Equality is based on the id alone: two values are the same when they
/// have the same id, even if their entities differ.
///
/// Ordering, in contrast, is based on the wrapped entity, not the id.
/// This asymmetry is deliberate and easily missed: deduplication goes by
/// identity, sorting goes by content.
#[derive(Debug, Clone)]
pub struct Ided<T: Identifiable, E = T> {
    id: Id<T>,
    entity: E,
}

impl<T: Identifiable, E> Ided<T, E> {
    /// The wrapped identifier, as contracts see it.
    pub closed spec fn spec_id(&self) -> Id<T> {
        self.id
    }

    /// The wrapped entity, as contracts see it.
    pub closed spec fn spec_entity(&self) -> E {
        self.entity
    }

    /// Create a new Ided wrapping an id and an entity.
    pub fn new(id: Id<T>, entity: E) -> (r: Self)
        ensures
            r.spec_id() == id,
            r.spec_entity() == entity,
    {
        Ided { id, entity }
    }

    /// Return the identifier.
    pub fn id(&self) -> (r: Id<T>)
        ensures
            r == self.spec_id(),
    {
        self.id
    }

    /// Return a reference to the wrapped entity.
    pub fn entity(&self) -> (r: &E)
        ensures
            *r == self.spec_entity(),
    {
        &self.entity
    }

    /// Return a mutable reference to the wrapped entity. The id cannot
    /// be changed this way.
    pub fn entity_mut(&mut self) -> (r: &mut E)
        ensures
            *r == old(self).spec_entity(),
            final(self).spec_id() == old(self).spec_id(),
            final(self).spec_entity() == *final(r),
    {
        &mut self.entity
    }

    /// Return the entity, dropping the id.
    pub fn take_entity(self) -> (r: E)
        ensures
            r == self.spec_entity(),
    {
        self.entity
    }

    /// Destructure the Ided into the wrapped id and entity.
    pub fn dismantle(self) -> (r: (Id<T>, E))
        ensures
            r.0 == self.spec_id(),
            r.1 == self.spec_entity(),
    {
        (self.id, self.entity)
    }
}

impl<T: Identifiable, E> PartialEq for Ided<T, E> {
    fn eq(&self, other: &Self) -> (r: bool) {
        self.id == other.id
    }
}

impl<T: Identifiable, E> Eq for Ided<T, E> {

}

impl<T: Identifiable, E> vstd::std_specs::cmp::PartialEqSpecImpl for Ided<T, E> {
    open spec fn obeys_eq_spec() -> bool {
        true
    }

    open spec fn eq_spec(&self, other: &Self) -> bool {
        self.spec_id()@ == other.spec_id()@
    }
}

impl<T: Identifiable, E: PartialOrd> PartialOrd for Ided<T, E> {
    fn partial_cmp(&self, other: &Self) -> (r: Option<core::cmp::Ordering>) {
        self.entity.partial_cmp(&other.entity)
    }
}

impl<T: Identifiable, E: PartialOrd> vstd::std_specs::cmp::PartialOrdSpecImpl for Ided<T, E> {
    open spec fn obeys_partial_cmp_spec() -> bool {
        <E as vstd::std_specs::cmp::PartialOrdSpec>::obeys_partial_cmp_spec()
    }

    open spec fn partial_cmp_spec(&self, other: &Self) -> Option<core::cmp::Ordering> {
        self.spec_entity().partial_cmp_spec(&other.spec_entity())
    }
}

} // verus!
