//! The mark of the physical types. The module is private, so no type outside
//! this library can bear the mark: the set of physical types is closed.

use crate::byte_array::{ByteArray, FixedLenByteArray};
use crate::int96::Int96;
use crate::scalars::{DoubleBits, FloatBits};
use vstd::prelude::*;

verus! {

/// A type that is one of the physical types.
pub trait Sealed {

}

impl Sealed for bool {

}

impl Sealed for i32 {

}

impl Sealed for i64 {

}

impl Sealed for Int96 {

}

impl Sealed for FloatBits {

}

impl Sealed for DoubleBits {

}

impl Sealed for ByteArray {

}

impl Sealed for FixedLenByteArray {

}

} // verus!
