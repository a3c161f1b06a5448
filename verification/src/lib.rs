//! Strongly-typed identifiers.
//!
//! An [`Id`] is a 128-bit token tagged at the type level with the class of
//! entity it identifies, so that an identifier for one entity kind cannot be
//! silently substituted for another, even though both travel as plain
//! strings or database values.
//!
//! An identifier has two textual forms:
//! - the *public* form, `<prefix>_<hyphenated-hex-value>`, used on every
//!   boundary outside the storage layer, and
//! - the *database* form, the bare hyphenated hex value, used only for a
//!   storage column already scoped to one class by schema.

pub mod error;
pub mod id;
pub mod id_class;
pub mod id_enum;
pub mod ided;
pub mod identifiable;
pub mod uuid_format;

pub use error::IdError;
pub use id::Id;
pub use id_class::IdClass;
pub use id_enum::IdEnum2;
pub use ided::Ided;
pub use identifiable::Identifiable;
