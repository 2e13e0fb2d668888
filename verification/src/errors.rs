use vstd::prelude::*;

verus! {

/// Why a raw message was rejected.
///
/// `Schema` covers a missing or type-mismatched required field (or a body
/// that is no message at all); `MalformedLevel` a price-level entry that
/// does not hold exactly two decimal number fields.
#[derive(Clone, Copy, PartialEq, Eq, Structural, Debug)]
pub enum DecodeError {
    MalformedLevel,
    Schema,
}

/// Why a replica refused an operation.
#[derive(Clone, Copy, PartialEq, Eq, Structural, Debug)]
pub enum InitError {
    /// A diff arrived before any snapshot was applied.
    NotInitialized,
}

} // verus!
