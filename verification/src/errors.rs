//! The error taxonomy: decoding and query-shape errors. Encoding is total
//! for the library's payload values, so no encode error arises here; store
//! errors stay with the storage layer and pass through this crate
//! untouched.

use vstd::prelude::*;

verus! {

/// Stored text could not be deserialized into a payload value.
#[derive(Debug, Clone, Copy, PartialEq, Eq, Structural)]
pub enum DecodeError {
    /// The text ended in the middle of a value.
    UnexpectedEnd,
    /// A character that no value can start or continue with here.
    UnexpectedChar,
    /// A number that does not fit the stored integer width.
    NumberOutOfRange,
    /// Nesting deeper than the recursion guard allows.
    TooDeep,
    /// Well-formed value followed by leftover text.
    TrailingText,
    /// The document does not have the shape the caller requested.
    UnexpectedShape,
}

/// A query was used with an operation of the wrong shape.
#[derive(Debug, Clone, Copy, PartialEq, Eq, Structural)]
pub enum QueryError {
    InvalidQueryType,
}

impl QueryError {
    /// A human-readable description.
    pub fn message(&self) -> (m: &'static str)
        ensures
            m@ == "Invalid query type"@,
    {
        "Invalid query type"
    }
}

impl DecodeError {
    /// A human-readable description.
    pub fn message(&self) -> (m: &'static str) {
        match self {
            DecodeError::UnexpectedEnd => "unexpected end of JSON text",
            DecodeError::UnexpectedChar => "unexpected character in JSON text",
            DecodeError::NumberOutOfRange => "number out of range",
            DecodeError::TooDeep => "nesting too deep",
            DecodeError::TrailingText => "trailing text after JSON value",
            DecodeError::UnexpectedShape => "document shape mismatch",
        }
    }
}

} // verus!
