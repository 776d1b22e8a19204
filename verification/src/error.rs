//! The ways in which an operation on a list fails.

use vstd::prelude::*;

verus! {

/// Why an operation failed.
#[derive(Clone, Copy, Debug, PartialEq, Eq, Structural)]
pub enum NvError {
    /// Storage could not be had.
    AllocationFailure,
    /// No entry has the name that was asked for.
    NotFound,
    /// The entry of that name holds a value of another kind.
    TypeMismatch,
    /// The name holds a terminator before its last byte.
    InvalidName,
    /// The list has no encoding: a size does not fit its field.
    EncodingFailure,
    /// The bytes are not the encoding of a list.
    DecodingFailure,
}

} // verus!
