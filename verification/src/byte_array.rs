//! Variable-length and fixed-length byte arrays: optional views of a shared,
//! immutable buffer.

use crate::buffer::{
    buffer_as_slice, buffer_bytes, buffer_clone, buffer_from_vec, buffer_len, buffer_slice,
};
use crate::byte_order::{ByteOrder, lemma_radix_pow_values, uint_bytes, write_uint};
use crate::errors::{CodecError, InvalidReason};
use crate::utils::{is_valid_up_to, text_from_utf8};
use bytes::Bytes;
use core::cmp::Ordering;
use vstd::prelude::*;
use vstd::slice::slice_to_vec;
use vstd::std_specs::cmp::{PartialEqSpecImpl, PartialOrdSpec, PartialOrdSpecImpl};
use vstd::std_specs::convert::FromSpecImpl;
use vstd::string::StringSliceAdditionalSpecFns;
use vstd::utf8::valid_utf8;

verus! {

/// How `left` stands to `right` in the order of the dictionary: by the first
/// byte in which they differ; a proper prefix comes before what it begins.
pub open spec fn lexicographic(left: Seq<u8>, right: Seq<u8>) -> Ordering
    decreases left.len(),
{
    if left.len() == 0 {
        if right.len() == 0 {
            Ordering::Equal
        } else {
            Ordering::Less
        }
    } else if right.len() == 0 {
        Ordering::Greater
    } else if left[0] < right[0] {
        Ordering::Less
    } else if left[0] > right[0] {
        Ordering::Greater
    } else {
        lexicographic(left.drop_first(), right.drop_first())
    }
}

/// How `left` stands to `right` where a value without data comes before
/// every value with data, and values with data are ordered by their bytes.
pub open spec fn unset_first(left: Option<Seq<u8>>, right: Option<Seq<u8>>) -> Ordering {
    match (left, right) {
        (None, None) => Ordering::Equal,
        (None, Some(_)) => Ordering::Less,
        (Some(_), None) => Ordering::Greater,
        (Some(left_bytes), Some(right_bytes)) => lexicographic(left_bytes, right_bytes),
    }
}

/// The bytes of `bytes` from index `from` on.
pub open spec fn rest_from(bytes: Seq<u8>, from: usize) -> Seq<u8> {
    bytes.skip(from as int)
}

/// Whether two slices hold the same bytes.
pub fn same_bytes(left: &[u8], right: &[u8]) -> (same: bool)
    ensures
        same == (left@ == right@),
{
    if left.len() != right.len() {
        return false;
    }
    let mut i: usize = 0;
    while i < left.len()
        invariant
            i <= left.len(),
            left.len() == right.len(),
            forall|j: int| 0 <= j < i ==> left@[j] == right@[j],
        decreases left.len() - i,
    {
        if left[i] != right[i] {
            return false;
        }
        i += 1;
    }
    assert(left@ =~= right@);
    true
}

/// How `left` stands to `right` in the order of the dictionary.
pub fn bytes_order(left: &[u8], right: &[u8]) -> (order: Ordering)
    ensures
        order == lexicographic(left@, right@),
{
    let mut i: usize = 0;
    proof {
        assert(rest_from(left@, 0) =~= left@);
        assert(rest_from(right@, 0) =~= right@);
    }
    while i < left.len() && i < right.len()
        invariant
            i <= left.len(),
            i <= right.len(),
            lexicographic(left@, right@) == lexicographic(
                rest_from(left@, i),
                rest_from(right@, i),
            ),
        decreases left.len() - i,
    {
        proof {
            assert(rest_from(left@, i).drop_first() =~= left@.skip(i + 1));
            assert(rest_from(right@, i).drop_first() =~= right@.skip(i + 1));
        }
        if left[i] < right[i] {
            return Ordering::Less;
        }
        if left[i] > right[i] {
            return Ordering::Greater;
        }
        i += 1;
    }
    if i < right.len() {
        Ordering::Less
    } else if i < left.len() {
        Ordering::Greater
    } else {
        Ordering::Equal
    }
}

/// A byte array: either unset, or a view of a shared buffer. Being unset is
/// not the same as holding no bytes.
#[derive(Debug)]
pub struct ByteArray {
    data: Option<Bytes>,
}

impl View for ByteArray {
    type V = Option<Seq<u8>>;

    closed spec fn view(&self) -> Option<Seq<u8>> {
        match self.data {
            Some(buffer) => Some(buffer_bytes(buffer)),
            None => None,
        }
    }
}

impl ByteArray {
    /// Creates a byte array with no data set.
    #[inline]
    pub fn new() -> (array: Self)
        ensures
            array@ is None,
    {
        ByteArray { data: None }
    }

    /// The number of bytes.
    #[inline]
    pub fn len(&self) -> (len: usize)
        requires
            self@ is Some,
        ensures
            len == self@->0.len(),
    {
        match &self.data {
            Some(buffer) => buffer_len(buffer),
            None => 0,
        }
    }

    /// Whether there are no bytes.
    #[inline]
    pub fn is_empty(&self) -> (empty: bool)
        requires
            self@ is Some,
        ensures
            empty == (self@->0.len() == 0),
    {
        self.len() == 0
    }

    /// The bytes.
    #[inline]
    pub fn data(&self) -> (bytes: &[u8])
        requires
            self@ is Some,
        ensures
            bytes@ == self@->0,
    {
        match &self.data {
            Some(buffer) => buffer_as_slice(buffer),
            None => &[],
        }
    }

    /// The bytes, where data is set.
    #[inline]
    pub fn data_if_set(&self) -> (bytes: Option<&[u8]>)
        ensures
            match bytes {
                Some(slice) => self@ == Some(slice@),
                None => self@ is None,
            },
    {
        match &self.data {
            Some(buffer) => Some(buffer_as_slice(buffer)),
            None => None,
        }
    }

    /// Sets the data to the bytes of `data`.
    #[inline]
    pub fn set_data(&mut self, data: Bytes)
        ensures
            final(self)@ == Some(buffer_bytes(data)),
    {
        self.data = Some(data);
    }

    /// The byte array of the `len` bytes from `start` on, sharing the buffer.
    #[inline]
    pub fn slice(&self, start: usize, len: usize) -> (part: Self)
        requires
            self@ is Some,
            start + len <= self@->0.len(),
        ensures
            part@ == Some(self@->0.subrange(start as int, start + len)),
    {
        match &self.data {
            Some(buffer) => {
                // The buffer's length fits the address width, and so does `start + len`.
                let _ = buffer_len(buffer);
                ByteArray { data: Some(buffer_slice(buffer, start, start + len)) }
            },
            None => ByteArray { data: None },
        }
    }

    /// The bytes as text: `InvalidArgument` where no data is set or the bytes
    /// are not UTF-8.
    pub fn as_utf8(&self) -> (result: Result<&str, CodecError>)
        ensures
            result is Ok <==> self@ is Some && valid_utf8(self@->0),
            result is Ok ==> result->Ok_0.spec_bytes() == self@->0,
            self@ is None ==> result == Err::<&str, CodecError>(
                CodecError::InvalidArgument(InvalidReason::UnsetByteArray),
            ),
            self@ is Some && result is Err ==> exists|position: usize|
                is_valid_up_to(self@->0, position as int) && result->Err_0
                    == CodecError::InvalidArgument(InvalidReason::Utf8 { valid_up_to: position }),
    {
        match &self.data {
            Some(buffer) => text_from_utf8(buffer_as_slice(buffer)),
            None => Err(CodecError::InvalidArgument(InvalidReason::UnsetByteArray)),
        }
    }

    /// The byte array of the two bytes of a half-precision number, given by
    /// its 16 bits, least significant byte first.
    pub fn from_f16_bits(bits: u16) -> (array: Self)
        ensures
            array@ == Some(uint_bytes(bits as nat, 2, ByteOrder::Little)),
    {
        let mut bytes: Vec<u8> = Vec::new();
        proof {
            lemma_radix_pow_values();
        }
        write_uint(bits as u64, 2, ByteOrder::Little, &mut bytes);
        assert(bytes@ =~= uint_bytes(bits as nat, 2, ByteOrder::Little));
        ByteArray { data: Some(buffer_from_vec(bytes)) }
    }

    /// The number of bytes this value keeps on the heap: those of its data,
    /// counted in full even where the buffer is shared.
    pub fn heap_size(&self) -> (size: usize)
        ensures
            size == match self@ {
                Some(bytes) => bytes.len(),
                None => 0,
            },
    {
        match &self.data {
            Some(buffer) => buffer_len(buffer),
            None => 0,
        }
    }
}

impl Clone for ByteArray {
    fn clone(&self) -> (copy: Self)
        ensures
            copy@ == self@,
    {
        match &self.data {
            Some(buffer) => ByteArray { data: Some(buffer_clone(buffer)) },
            None => ByteArray { data: None },
        }
    }
}

impl Default for ByteArray {
    fn default() -> (array: Self)
        ensures
            array@ is None,
    {
        ByteArray::new()
    }
}

impl From<Vec<u8>> for ByteArray {
    fn from(buf: Vec<u8>) -> (array: ByteArray)
        ensures
            array@ == Some(buf@),
    {
        ByteArray { data: Some(buffer_from_vec(buf)) }
    }
}

impl FromSpecImpl<Vec<u8>> for ByteArray {
    open spec fn obeys_from_spec() -> bool {
        false
    }

    open spec fn from_spec(buf: Vec<u8>) -> ByteArray {
        arbitrary()
    }
}

impl<'a> From<&'a [u8]> for ByteArray {
    fn from(b: &'a [u8]) -> (array: ByteArray)
        ensures
            array@ == Some(b@),
    {
        ByteArray { data: Some(buffer_from_vec(slice_to_vec(b))) }
    }
}

impl<'a> FromSpecImpl<&'a [u8]> for ByteArray {
    open spec fn obeys_from_spec() -> bool {
        false
    }

    open spec fn from_spec(b: &'a [u8]) -> ByteArray {
        arbitrary()
    }
}

impl<'a> From<&'a str> for ByteArray {
    fn from(s: &'a str) -> (array: ByteArray)
        ensures
            array@ == Some(s.spec_bytes()),
    {
        ByteArray { data: Some(buffer_from_vec(slice_to_vec(s.as_bytes()))) }
    }
}

impl<'a> FromSpecImpl<&'a str> for ByteArray {
    open spec fn obeys_from_spec() -> bool {
        false
    }

    open spec fn from_spec(s: &'a str) -> ByteArray {
        arbitrary()
    }
}

impl From<Bytes> for ByteArray {
    fn from(value: Bytes) -> (array: ByteArray)
        ensures
            array@ == Some(buffer_bytes(value)),
    {
        ByteArray { data: Some(value) }
    }
}

impl FromSpecImpl<Bytes> for ByteArray {
    open spec fn obeys_from_spec() -> bool {
        false
    }

    open spec fn from_spec(value: Bytes) -> ByteArray {
        arbitrary()
    }
}

impl PartialEq for ByteArray {
    fn eq(&self, other: &ByteArray) -> (equal: bool) {
        match (&self.data, &other.data) {
            (Some(d1), Some(d2)) => same_bytes(buffer_as_slice(d1), buffer_as_slice(d2)),
            (None, None) => true,
            _ => false,
        }
    }
}

impl PartialEqSpecImpl for ByteArray {
    open spec fn obeys_eq_spec() -> bool {
        true
    }

    open spec fn eq_spec(&self, other: &ByteArray) -> bool {
        self@ == other@
    }
}

impl PartialOrd for ByteArray {
    fn partial_cmp(&self, other: &ByteArray) -> (order: Option<Ordering>) {
        match (&self.data, &other.data) {
            (None, None) => Some(Ordering::Equal),
            (None, Some(_)) => Some(Ordering::Less),
            (Some(_), None) => Some(Ordering::Greater),
            (Some(self_data), Some(other_data)) => Some(
                bytes_order(buffer_as_slice(self_data), buffer_as_slice(other_data)),
            ),
        }
    }
}

impl PartialOrdSpecImpl for ByteArray {
    open spec fn obeys_partial_cmp_spec() -> bool {
        true
    }

    open spec fn partial_cmp_spec(&self, other: &ByteArray) -> Option<Ordering> {
        Some(unset_first(self@, other@))
    }
}

/// A byte array of a length that the column fixes. It holds its data as a
/// `ByteArray` does and is a type of its own so that the choice between the
/// two codecs is made when the program is compiled.
#[derive(Debug)]
pub struct FixedLenByteArray(ByteArray);

impl View for FixedLenByteArray {
    type V = Option<Seq<u8>>;

    closed spec fn view(&self) -> Option<Seq<u8>> {
        self.0@
    }
}

impl FixedLenByteArray {
    /// Sets the data to the bytes of `data`.
    #[inline]
    pub fn set_data(&mut self, data: Bytes)
        ensures
            final(self)@ == Some(buffer_bytes(data)),
    {
        self.0.set_data(data);
    }
}

impl core::ops::Deref for FixedLenByteArray {
    type Target = ByteArray;

    fn deref(&self) -> (inner: &ByteArray)
        ensures
            inner@ == self@,
    {
        &self.0
    }
}

impl core::ops::DerefMut for FixedLenByteArray {
    fn deref_mut(&mut self) -> (inner: &mut ByteArray)
        ensures
            inner@ == old(self)@,
            final(self)@ == final(inner)@,
    {
        &mut self.0
    }
}

impl Clone for FixedLenByteArray {
    fn clone(&self) -> (copy: Self)
        ensures
            copy@ == self@,
    {
        FixedLenByteArray(self.0.clone())
    }
}

impl Default for FixedLenByteArray {
    fn default() -> (array: Self)
        ensures
            array@ is None,
    {
        FixedLenByteArray(ByteArray::new())
    }
}

impl From<ByteArray> for FixedLenByteArray {
    fn from(other: ByteArray) -> (array: FixedLenByteArray)
        ensures
            array@ == other@,
    {
        FixedLenByteArray(other)
    }
}

impl FromSpecImpl<ByteArray> for FixedLenByteArray {
    open spec fn obeys_from_spec() -> bool {
        false
    }

    open spec fn from_spec(other: ByteArray) -> FixedLenByteArray {
        arbitrary()
    }
}

impl From<Vec<u8>> for FixedLenByteArray {
    fn from(buf: Vec<u8>) -> (array: FixedLenByteArray)
        ensures
            array@ == Some(buf@),
    {
        FixedLenByteArray(ByteArray::from(buf))
    }
}

impl FromSpecImpl<Vec<u8>> for FixedLenByteArray {
    open spec fn obeys_from_spec() -> bool {
        false
    }

    open spec fn from_spec(buf: Vec<u8>) -> FixedLenByteArray {
        arbitrary()
    }
}

impl From<FixedLenByteArray> for ByteArray {
    fn from(other: FixedLenByteArray) -> (array: ByteArray)
        ensures
            array@ == other@,
    {
        other.0
    }
}

impl FromSpecImpl<FixedLenByteArray> for ByteArray {
    open spec fn obeys_from_spec() -> bool {
        false
    }

    open spec fn from_spec(other: FixedLenByteArray) -> ByteArray {
        arbitrary()
    }
}

impl PartialEq for FixedLenByteArray {
    fn eq(&self, other: &FixedLenByteArray) -> (equal: bool) {
        self.0.eq(&other.0)
    }
}

impl PartialEqSpecImpl for FixedLenByteArray {
    open spec fn obeys_eq_spec() -> bool {
        true
    }

    open spec fn eq_spec(&self, other: &FixedLenByteArray) -> bool {
        self@ == other@
    }
}

impl PartialOrd for FixedLenByteArray {
    fn partial_cmp(&self, other: &FixedLenByteArray) -> (order: Option<Ordering>) {
        self.0.partial_cmp(&other.0)
    }
}

impl PartialOrdSpecImpl for FixedLenByteArray {
    open spec fn obeys_partial_cmp_spec() -> bool {
        true
    }

    open spec fn partial_cmp_spec(&self, other: &FixedLenByteArray) -> Option<Ordering> {
        Some(unset_first(self@, other@))
    }
}

/// A byte array without data comes before every byte array with data.
pub proof fn lemma_unset_sorts_first(left: ByteArray, right: ByteArray)
    requires
        left@ is None,
        right@ is Some,
    ensures
        PartialOrdSpec::partial_cmp_spec(&left, &right) == Some(Ordering::Less),
        PartialOrdSpec::partial_cmp_spec(&right, &left) == Some(Ordering::Greater),
{
}

/// Byte arrays are equal in the order exactly when they are equal: both
/// unset, or both set to the same bytes.
pub proof fn lemma_order_equal_is_equality(left: ByteArray, right: ByteArray)
    ensures
        PartialOrdSpec::partial_cmp_spec(&left, &right) == Some(Ordering::Equal) <==> left@
            == right@,
{
    if left@ is Some && right@ is Some {
        lemma_lexicographic_equal(left@->0, right@->0);
    }
}

/// Sequences of bytes are equal in the order of the dictionary exactly when
/// they are the same sequence.
pub proof fn lemma_lexicographic_equal(left: Seq<u8>, right: Seq<u8>)
    ensures
        lexicographic(left, right) == Ordering::Equal <==> left == right,
    decreases left.len(),
{
    if left.len() > 0 && right.len() > 0 {
        lemma_lexicographic_equal(left.drop_first(), right.drop_first());
        if left.drop_first() == right.drop_first() && left[0] == right[0] {
            assert(left =~= seq![left[0]] + left.drop_first());
            assert(right =~= seq![right[0]] + right.drop_first());
        }
    } else if left.len() == 0 && right.len() == 0 {
        assert(left =~= right);
    }
}

/// Sequences that agree before index `at` and differ there are ordered as
/// their bytes at `at` are, whatever follows and however long they are.
pub proof fn lemma_lexicographic_first_difference(left: Seq<u8>, right: Seq<u8>, at: int)
    requires
        0 <= at < left.len(),
        at < right.len(),
        forall|i: int| 0 <= i < at ==> left[i] == right[i],
        left[at] != right[at],
    ensures
        left[at] < right[at] ==> lexicographic(left, right) == Ordering::Less,
        left[at] > right[at] ==> lexicographic(left, right) == Ordering::Greater,
    decreases at,
{
    if at > 0 {
        lemma_lexicographic_first_difference(left.drop_first(), right.drop_first(), at - 1);
    }
}

/// Swapping the two sequences swaps `Less` and `Greater`.
pub proof fn lemma_lexicographic_swap(left: Seq<u8>, right: Seq<u8>)
    ensures
        lexicographic(left, right) == Ordering::Less <==> lexicographic(right, left)
            == Ordering::Greater,
        lexicographic(left, right) == Ordering::Equal <==> lexicographic(right, left)
            == Ordering::Equal,
    decreases left.len(),
{
    if left.len() > 0 && right.len() > 0 {
        lemma_lexicographic_swap(left.drop_first(), right.drop_first());
    }
}

/// The order of the dictionary is transitive.
pub proof fn lemma_lexicographic_transitive(low: Seq<u8>, middle: Seq<u8>, high: Seq<u8>)
    requires
        lexicographic(low, middle) != Ordering::Greater,
        lexicographic(middle, high) != Ordering::Greater,
    ensures
        lexicographic(low, high) != Ordering::Greater,
        lexicographic(low, middle) == Ordering::Less || lexicographic(middle, high)
            == Ordering::Less ==> lexicographic(low, high) == Ordering::Less,
    decreases low.len(),
{
    if low.len() > 0 && middle.len() > 0 && high.len() > 0 {
        if low[0] == middle[0] && middle[0] == high[0] {
            lemma_lexicographic_transitive(
                low.drop_first(),
                middle.drop_first(),
                high.drop_first(),
            );
        }
    }
}

/// A sequence comes before every longer sequence that it begins.
pub proof fn lemma_lexicographic_prefix(left: Seq<u8>, right: Seq<u8>)
    requires
        left.len() < right.len(),
        forall|i: int| 0 <= i < left.len() ==> left[i] == right[i],
    ensures
        lexicographic(left, right) == Ordering::Less,
        lexicographic(right, left) == Ordering::Greater,
    decreases left.len(),
{
    if left.len() > 0 {
        lemma_lexicographic_prefix(left.drop_first(), right.drop_first());
    }
}

impl PartialEq<ByteArray> for FixedLenByteArray {
    fn eq(&self, other: &ByteArray) -> (equal: bool) {
        self.0.eq(other)
    }
}

impl PartialEqSpecImpl<ByteArray> for FixedLenByteArray {
    open spec fn obeys_eq_spec() -> bool {
        true
    }

    open spec fn eq_spec(&self, other: &ByteArray) -> bool {
        self@ == other@
    }
}

impl PartialEq<FixedLenByteArray> for ByteArray {
    fn eq(&self, other: &FixedLenByteArray) -> (equal: bool) {
        self.eq(&other.0)
    }
}

impl PartialEqSpecImpl<FixedLenByteArray> for ByteArray {
    open spec fn obeys_eq_spec() -> bool {
        true
    }

    open spec fn eq_spec(&self, other: &FixedLenByteArray) -> bool {
        self@ == other@
    }
}

impl PartialOrd<ByteArray> for FixedLenByteArray {
    fn partial_cmp(&self, other: &ByteArray) -> (order: Option<Ordering>) {
        self.0.partial_cmp(other)
    }
}

impl PartialOrdSpecImpl<ByteArray> for FixedLenByteArray {
    open spec fn obeys_partial_cmp_spec() -> bool {
        true
    }

    open spec fn partial_cmp_spec(&self, other: &ByteArray) -> Option<Ordering> {
        Some(unset_first(self@, other@))
    }
}

impl PartialOrd<FixedLenByteArray> for ByteArray {
    fn partial_cmp(&self, other: &FixedLenByteArray) -> (order: Option<Ordering>) {
        self.partial_cmp(&other.0)
    }
}

impl PartialOrdSpecImpl<FixedLenByteArray> for ByteArray {
    open spec fn obeys_partial_cmp_spec() -> bool {
        true
    }

    open spec fn partial_cmp_spec(&self, other: &FixedLenByteArray) -> Option<Ordering> {
        Some(unset_first(self@, other@))
    }
}

} // verus!
