//! The errors that the library reports.

use vstd::prelude::*;

verus! {

/// Which end of a requested range an offset computation was for.
#[derive(Clone, Copy, Debug, PartialEq, Eq, Structural)]
pub enum SliceEdge {
    /// The first byte of the range.
    Start,
    /// One past the last byte of the range.
    End,
}

/// What was asked of a buffer.
#[derive(Clone, Copy, Debug, PartialEq, Eq, Structural)]
pub enum Requested {
    /// The byte at an index.
    Index(usize),
    /// The bytes from `start` up to, not including, `end`.
    Range { start: usize, end: usize },
}

/// Why an argument was refused.
#[derive(Clone, Copy, Debug, PartialEq, Eq, Structural)]
pub enum InvalidReason {
    /// The bytes are not UTF-8; the first `valid_up_to` of them are.
    Utf8 { valid_up_to: usize },
    /// At least one byte was needed and none was given.
    EmptyBytes,
    /// A byte array without data was given.
    UnsetByteArray,
}

/// An error of slicing, decoding or converting. Each is returned, never raised.
#[derive(Clone, Copy, Debug, PartialEq, Eq, Structural)]
pub enum CodecError {
    /// What was requested does not lie within a buffer of `len` bytes.
    OutOfBounds { requested: Requested, len: usize },
    /// Adding an offset to one end of a range left the address width.
    Overflow(SliceEdge),
    /// An argument does not have the required form.
    InvalidArgument(InvalidReason),
    /// The cursor holds fewer bytes than the requested values need.
    UnexpectedEof,
    /// The value's type has no conversion to the requested number type.
    TypeMismatch,
}

/// The error for an offset computation that overflowed at `edge`.
pub fn overflow_error(edge: SliceEdge) -> (error: CodecError)
    ensures
        error == CodecError::Overflow(edge),
{
    CodecError::Overflow(edge)
}

} // verus!
