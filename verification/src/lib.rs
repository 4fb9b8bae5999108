//! Builders and canonical serialization for hypermedia resources.
//!
//! A [`resource::Resource`] carries typed state values, named link
//! relations, and embedded child resources. [`Resource::to_json`]
//! renders the tree into a generic JSON value ([`json::Json`]) with
//! deterministic, lexicographic key ordering, collapsing a relation
//! with a single link into one object and keeping the reserved
//! `"curies"` relation as an array. Text encoding of the resulting
//! JSON value is left to any compliant JSON writer.

use vstd::prelude::*;

pub mod assoc;
pub mod json;
pub mod lexical;
pub mod resource;
pub mod link;
pub mod state;

verus! {

/// A conversion of a domain value into a resource: the one
/// integration point that domain types implement to enter the
/// library.
pub trait ToHal {
    fn to_hal(self) -> crate::resource::Resource;
}

/// Why reconstructing a value from generic JSON failed. Building and
/// serializing never fail; only the JSON-to-domain direction can.
#[derive(Clone, Copy, PartialEq, Eq, Structural, Debug)]
pub enum HalError {
    /// A required field is absent, or the input is not an object.
    MissingRequiredField,
    /// A field is present with the wrong JSON type.
    TypeMismatch,
    /// A value that the target format cannot represent. The closed
    /// variant set means no conversion produces it; it is kept for
    /// defensive completeness.
    UnsupportedValue,
}

} // verus!
