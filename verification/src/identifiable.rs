//! The link between an entity type and its identifier class.

use vstd::prelude::*;

use crate::id_class::IdClass;

verus! {

/// An identifiable is an object kind which can be referred to with an
/// [`crate::Id`] (the id may or may not be part of the object itself).
///
/// Implement it once per entity type, returning a class built with
/// [`IdClass::new`]; the exec method must return the one class that
/// `spec_class` names, so that every identifier of the type carries the
/// same prefix.
pub trait Identifiable {
    /// The class of this entity kind, as contracts see it.
    spec fn spec_class() -> IdClass;

    /// The class of this entity kind. It must be the one class named by
    /// `spec_class`, and a well-formed one, as every class built with
    /// [`IdClass::new`] is.
    fn class() -> (c: IdClass)
        ensures
            c == Self::spec_class(),
            c.wf(),
    ;
}

} // verus!
