//! The shared, immutable byte buffer that byte-array values slice.

use bytes::Bytes;
use vstd::prelude::*;

verus! {

/// `bytes::Bytes`: a handle on a range of a reference-counted, immutable
/// piece of memory. Nothing inside it is visible to proofs; what they know
/// of a buffer is `buffer_bytes` of it.
#[verifier::external_type_specification]
#[verifier::external_body]
pub struct ExBytes(bytes::Bytes);

/// The bytes that a buffer holds, in order: what `Bytes::as_ref` shows. The
/// functions below say what each operation of `Bytes` does to them; none
/// of this is proved.
pub uninterp spec fn buffer_bytes(buffer: Bytes) -> Seq<u8>;

/// `Bytes::len`: the number of bytes the buffer holds.
#[verifier::external_body]
pub(crate) fn buffer_len(buffer: &Bytes) -> (len: usize)
    ensures
        len == buffer_bytes(*buffer).len(),
{
    buffer.len()
}

/// `Bytes::slice`: a buffer over the bytes in `start..end` of `buffer`,
/// sharing its memory. The range must lie within the buffer, as `slice`
/// panics otherwise.
#[verifier::external_body]
pub(crate) fn buffer_slice(buffer: &Bytes, start: usize, end: usize) -> (part: Bytes)
    requires
        start <= end <= buffer_bytes(*buffer).len(),
    ensures
        buffer_bytes(part) == buffer_bytes(*buffer).subrange(start as int, end as int),
{
    buffer.slice(start..end)
}

/// `Bytes::as_ref`: the buffer's bytes as a slice.
#[verifier::external_body]
pub(crate) fn buffer_as_slice(buffer: &Bytes) -> (bytes: &[u8])
    ensures
        bytes@ == buffer_bytes(*buffer),
{
    buffer.as_ref()
}

/// `Bytes::from(Vec<u8>)`: a buffer that takes over the vector and holds
/// its bytes.
#[verifier::external_body]
pub(crate) fn buffer_from_vec(bytes: Vec<u8>) -> (buffer: Bytes)
    ensures
        buffer_bytes(buffer) == bytes@,
{
    Bytes::from(bytes)
}

/// `Bytes::clone`: another handle on the same memory, holding the same
/// bytes.
#[verifier::external_body]
pub(crate) fn buffer_clone(buffer: &Bytes) -> (copy: Bytes)
    ensures
        buffer_bytes(copy) == buffer_bytes(*buffer),
{
    buffer.clone()
}

} // verus!
