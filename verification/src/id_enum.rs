//! A discriminated identifier over two declared classes.

use vstd::prelude::*;

use crate::error::IdError;
use crate::id::{spec_parse_public, spec_public_id, Id};
use crate::identifiable::Identifiable;

verus! {

/// An identifier of either of two declared classes, recovered from text
/// by guessing the class from the prefix.
///
/// The variants stand in declaration order: parsing tries the first
/// class, then the second. Rendering delegates to whichever variant is
/// set, so it is consistent with each class's own public form.
#[derive(Debug, Clone, Copy, PartialEq, Eq)]
pub enum IdEnum2<A: Identifiable, B: Identifiable> {
    First(Id<A>),
    Second(Id<B>),
}

impl<A: Identifiable, B: Identifiable> IdEnum2<A, B> {
    /// The raw 128-bit value of whichever variant is set.
    pub open spec fn spec_value(self) -> u128 {
        match self {
            IdEnum2::First(id) => id@,
            IdEnum2::Second(id) => id@,
        }
    }

    /// Parse a public identifier, guessing the class from its prefix.
    ///
    /// Each declared class is tried in declaration order. The first
    /// class that does not fail with `WrongClass` decides: on success
    /// its variant is returned, and any other error is propagated at
    /// once — a recognized but malformed value fails loudly instead of
    /// being mistaken for a later class. Only when every class reports
    /// `WrongClass` does the whole parse fail with `WrongClass`.
    pub fn from_public_id(s: &str) -> (r: Result<Self, IdError>)
        ensures
            ({
                let pa = spec_parse_public(A::spec_class(), s@);
                let pb = spec_parse_public(B::spec_class(), s@);
                &&& (pa matches Ok(v) ==> r matches Ok(u) && u is First && u.spec_value() as int
                    == v)
                &&& (pa matches Err(e) ==> (e != IdError::WrongClass ==> r == Err::<
                    Self,
                    IdError,
                >(e)))
                &&& (pa == Err::<int, IdError>(IdError::WrongClass) ==> {
                    &&& (pb matches Ok(v) ==> r matches Ok(u) && u is Second && u.spec_value()
                        as int == v)
                    &&& (pb matches Err(e) ==> r == Err::<Self, IdError>(e))
                })
            }),
    {
        match Id::<A>::from_public_id(s) {
            Ok(id) => Ok(IdEnum2::First(id)),
            Err(IdError::WrongClass) => match Id::<B>::from_public_id(s) {
                Ok(id) => Ok(IdEnum2::Second(id)),
                Err(e) => Err(e),
            },
            Err(e) => Err(e),
        }
    }

    /// The public representation of whichever variant is set.
    pub fn public_id(&self) -> (s: String)
        ensures
            *self matches IdEnum2::First(id) ==> s@ == spec_public_id(A::spec_class(), id@),
            *self matches IdEnum2::Second(id) ==> s@ == spec_public_id(B::spec_class(), id@),
    {
        match self {
            IdEnum2::First(id) => id.public_id(),
            IdEnum2::Second(id) => id.public_id(),
        }
    }
}

/// Parse a discriminated identifier from a public representation.
impl<A: Identifiable, B: Identifiable> core::str::FromStr for IdEnum2<A, B> {
    type Err = IdError;

    fn from_str(s: &str) -> (r: Result<Self, IdError>) {
        Self::from_public_id(s)
    }
}

} // verus!
