//! The closed set of failure reasons of this library.

use vstd::prelude::*;

verus! {

/// An error returned by the parsing entry points.
///
/// - `WrongClass`: the leading class prefix of a public identifier does not
///   match the class that was asked for.
/// - `InvalidFormat`: the text is not a well-formed identifier (missing
///   underscore separator, or a malformed hyphenated hex value).
/// - `EmptyDbId`: a database identifier was empty where a value was needed.
#[derive(Debug, Clone, Copy, PartialEq, Eq, Structural)]
pub enum IdError {
    WrongClass,
    InvalidFormat,
    EmptyDbId,
}

impl IdError {
    /// A short human-readable description of the error.
    pub fn message(&self) -> (s: &'static str)
        ensures
            *self is WrongClass ==> s@ == "wrong object class"@,
            *self is InvalidFormat ==> s@ == "invalid format for id"@,
            *self is EmptyDbId ==> s@ == "empty db id"@,
    {
        match self {
            IdError::WrongClass => "wrong object class",
            IdError::InvalidFormat => "invalid format for id",
            IdError::EmptyDbId => "empty db id",
        }
    }
}

} // verus!
