//! Overflow-checked slicing of byte buffers and UTF-8 extraction.

use crate::errors::{CodecError, InvalidReason, Requested, SliceEdge, overflow_error};
use core::cmp::Ordering;
use core::ops::Range;
use vstd::prelude::*;
use vstd::slice::slice_subrange;
use vstd::std_specs::cmp::OrdSpec;
use vstd::string::StringSliceAdditionalSpecFns;
use vstd::utf8::valid_utf8;

verus! {

/// Whether what was requested lies within a buffer of `len` bytes.
pub open spec fn within(requested: Requested, len: nat) -> bool {
    match requested {
        Requested::Index(index) => index < len,
        Requested::Range { start, end } => start <= end <= len,
    }
}

/// Whether `start..end` lies within a buffer of `len` bytes.
pub open spec fn in_bounds(len: nat, start: int, end: int) -> bool {
    0 <= start <= end <= len
}

/// What slicing `start..end` out of `bytes` yields.
pub open spec fn slice_of(bytes: Seq<u8>, start: usize, end: usize) -> Result<Seq<u8>, CodecError> {
    if in_bounds(bytes.len(), start as int, end as int) {
        Ok(bytes.subrange(start as int, end as int))
    } else {
        Err(
            CodecError::OutOfBounds {
                requested: Requested::Range { start, end },
                len: bytes.len() as usize,
            },
        )
    }
}

/// What slicing `start..end`, counted from `base_offset`, out of `bytes` yields:
/// the start is computed and checked first, then the end, then the bounds.
pub open spec fn slice_at_offset_of(
    bytes: Seq<u8>,
    base_offset: usize,
    start: usize,
    end: usize,
) -> Result<Seq<u8>, CodecError> {
    if base_offset + start > usize::MAX {
        Err(CodecError::Overflow(SliceEdge::Start))
    } else if base_offset + end > usize::MAX {
        Err(CodecError::Overflow(SliceEdge::End))
    } else {
        slice_of(bytes, (base_offset + start) as usize, (base_offset + end) as usize)
    }
}

/// A way to select a part of a buffer: an index selects one byte, a range a
/// slice.
pub trait BufferIndex: Sized {
    /// What the index selects.
    type Output: ?Sized;

    /// What the index requests.
    spec fn requested(self) -> Requested;

    /// Whether `output` is what the index selects of `bytes`.
    spec fn selects(self, bytes: Seq<u8>, output: &Self::Output) -> bool;

    /// What the index requests.
    fn request(&self) -> (requested: Requested)
        ensures
            requested == self.requested(),
    ;

    /// What the index selects of `bytes`, where that lies within them.
    fn get(self, bytes: &[u8]) -> (output: Option<&Self::Output>)
        ensures
            output is Some <==> within(self.requested(), bytes@.len()),
            output is Some ==> self.selects(bytes@, output->0),
    ;
}

impl BufferIndex for usize {
    type Output = u8;

    open spec fn requested(self) -> Requested {
        Requested::Index(self)
    }

    open spec fn selects(self, bytes: Seq<u8>, output: &u8) -> bool {
        *output == bytes[self as int]
    }

    fn request(&self) -> (requested: Requested) {
        Requested::Index(*self)
    }

    fn get(self, bytes: &[u8]) -> (output: Option<&u8>) {
        if self < bytes.len() {
            Some(&bytes[self])
        } else {
            None
        }
    }
}

impl BufferIndex for Range<usize> {
    type Output = [u8];

    open spec fn requested(self) -> Requested {
        Requested::Range { start: self.start, end: self.end }
    }

    open spec fn selects(self, bytes: Seq<u8>, output: &[u8]) -> bool {
        output@ == bytes.subrange(self.start as int, self.end as int)
    }

    fn request(&self) -> (requested: Requested) {
        Requested::Range { start: self.start, end: self.end }
    }

    fn get(self, bytes: &[u8]) -> (output: Option<&[u8]>) {
        if self.start <= self.end && self.end <= bytes.len() {
            Some(slice_subrange(bytes, self.start, self.end))
        } else {
            None
        }
    }
}

/// What `index` selects of `bytes`, or `OutOfBounds` with the request and
/// the buffer's length where that does not lie within the buffer.
#[inline]
pub fn slice_from_slice<I: BufferIndex>(bytes: &[u8], index: I) -> (result: Result<
    &I::Output,
    CodecError,
>)
    ensures
        result is Ok <==> within(index.requested(), bytes@.len()),
        result is Ok ==> index.selects(bytes@, result->Ok_0),
        result is Err ==> result->Err_0 == (CodecError::OutOfBounds {
            requested: index.requested(),
            len: bytes@.len() as usize,
        }),
{
    let requested = index.request();
    match index.get(bytes) {
        Some(output) => Ok(output),
        None => Err(CodecError::OutOfBounds { requested, len: bytes.len() }),
    }
}

/// The bytes of `bytes` in `range` shifted by `base_offset`. Both sums are
/// checked: `Overflow` where one of them leaves the address width, and
/// `OutOfBounds` where the shifted range does not lie within the buffer.
#[inline]
pub fn slice_from_slice_at_offset<'a>(
    bytes: &'a [u8],
    base_offset: usize,
    range: Range<usize>,
) -> (result: Result<&'a [u8], CodecError>)
    ensures
        result is Ok <==> slice_at_offset_of(bytes@, base_offset, range.start, range.end) is Ok,
        result is Ok ==> result->Ok_0@ == slice_at_offset_of(
            bytes@,
            base_offset,
            range.start,
            range.end,
        )->Ok_0,
        result is Err ==> result->Err_0 == slice_at_offset_of(
            bytes@,
            base_offset,
            range.start,
            range.end,
        )->Err_0,
{
    let start_byte = match base_offset.checked_add(range.start) {
        Some(sum) => sum,
        None => {
            return Err(overflow_error(SliceEdge::Start));
        },
    };
    let end_byte = match base_offset.checked_add(range.end) {
        Some(sum) => sum,
        None => {
            return Err(overflow_error(SliceEdge::End));
        },
    };
    slice_from_slice(bytes, start_byte..end_byte)
}

/// Where adding the offset to the end of the range leaves the address width,
/// slicing reports `Overflow`, whatever the buffer holds.
pub proof fn lemma_offset_overflow_is_reported(
    bytes: Seq<u8>,
    base_offset: usize,
    start: usize,
    end: usize,
)
    requires
        base_offset + end > usize::MAX,
    ensures
        slice_at_offset_of(bytes, base_offset, start, end) is Err,
        slice_at_offset_of(bytes, base_offset, start, end)->Err_0 is Overflow,
{
}

/// A range that lies within the buffer selects as many bytes as it spans,
/// and an index within the buffer selects the byte at it.
pub proof fn lemma_selection(bytes: Seq<u8>, range: Range<usize>, slice: &[u8], index: usize, byte: &u8)
    ensures
        within(range.requested(), bytes.len()) && range.selects(bytes, slice) ==> slice@.len()
            == range.end - range.start,
        within(index.requested(), bytes.len()) && index.selects(bytes, byte) ==> *byte
            == bytes[index as int],
        within(range.requested(), bytes.len()) <==> in_bounds(
            bytes.len(),
            range.start as int,
            range.end as int,
        ),
{
}

/// Slicing a range that lies within the buffer yields as many bytes as the
/// range spans; slicing any other range yields `OutOfBounds`.
pub proof fn lemma_slice_of_range(bytes: Seq<u8>, start: usize, end: usize)
    requires
        bytes.len() <= usize::MAX,
    ensures
        in_bounds(bytes.len(), start as int, end as int) ==> slice_of(bytes, start, end) is Ok
            && slice_of(bytes, start, end)->Ok_0.len() == end - start,
        !in_bounds(bytes.len(), start as int, end as int) ==> slice_of(bytes, start, end)
            == Err::<Seq<u8>, CodecError>(
            CodecError::OutOfBounds {
                requested: Requested::Range { start, end },
                len: bytes.len() as usize,
            },
        ),
{
}

/// The `N` bytes of `bytes` from `offset` on.
pub fn array_from_slice<const N: usize>(bytes: &[u8], offset: usize) -> (result: Result<
    [u8; N],
    CodecError,
>)
    ensures
        result is Ok <==> slice_at_offset_of(bytes@, offset, 0, N) is Ok,
        result is Ok ==> result->Ok_0@ == slice_at_offset_of(bytes@, offset, 0, N)->Ok_0,
        result is Err ==> result->Err_0 == slice_at_offset_of(bytes@, offset, 0, N)->Err_0,
{
    let part = slice_from_slice_at_offset(bytes, offset, 0..N)?;
    let mut array = [0u8;N];
    let mut i: usize = 0;
    while i < N
        invariant
            i <= N,
            part@.len() == N,
            forall|j: int| 0 <= j < i ==> array@[j] == part@[j],
        decreases N - i,
    {
        array[i] = part[i];
        i += 1;
    }
    assert(array@ =~= part@);
    Ok(array)
}

/// The first byte of `slice`, or `InvalidArgument` where there is none.
pub fn first_byte_from_slice(slice: &[u8]) -> (result: Result<u8, CodecError>)
    ensures
        slice@.len() > 0 ==> result == Ok::<u8, CodecError>(slice@[0]),
        slice@.len() == 0 ==> result == Err::<u8, CodecError>(
            CodecError::InvalidArgument(InvalidReason::EmptyBytes),
        ),
{
    if slice.len() > 0 {
        Ok(slice[0])
    } else {
        Err(CodecError::InvalidArgument(InvalidReason::EmptyBytes))
    }
}

/// `simdutf8::basic::Utf8Error`: the error of the fast validation, which
/// carries nothing.
#[verifier::external_type_specification]
#[verifier::external_body]
pub struct ExBasicUtf8Error(simdutf8::basic::Utf8Error);

/// `simdutf8::basic::from_utf8`: the text that `bytes` encode, exactly when
/// they are valid UTF-8; the text is the bytes themselves, seen as a `str`.
#[verifier::external_body]
fn fast_from_utf8<'a>(bytes: &'a [u8]) -> (result: Result<&'a str, simdutf8::basic::Utf8Error>)
    ensures
        result is Ok <==> valid_utf8(bytes@),
        result is Ok ==> result->Ok_0.spec_bytes() == bytes@,
{
    simdutf8::basic::from_utf8(bytes)
}

/// `simdutf8::compat::from_utf8`: the text that `bytes` encode, exactly when
/// they are valid UTF-8; otherwise the error's `valid_up_to`, which like that
/// of `std::str::Utf8Error` is the length of the longest prefix of `bytes`
/// that is valid UTF-8.
#[verifier::external_body]
fn detailed_from_utf8<'a>(bytes: &'a [u8]) -> (result: Result<&'a str, usize>)
    ensures
        result is Ok <==> valid_utf8(bytes@),
        result is Ok ==> result->Ok_0.spec_bytes() == bytes@,
        result is Err ==> is_valid_up_to(bytes@, result->Err_0 as int),
{
    match simdutf8::compat::from_utf8(bytes) {
        Ok(text) => Ok(text),
        Err(error) => Err(error.valid_up_to()),
    }
}

/// `position` is the length of the longest prefix of `bytes` that is valid
/// UTF-8, and not all of `bytes` are.
pub open spec fn is_valid_up_to(bytes: Seq<u8>, position: int) -> bool {
    &&& 0 <= position < bytes.len()
    &&& valid_utf8(bytes.subrange(0, position))
    &&& forall|longer: int|
        position < longer <= bytes.len() ==> !valid_utf8(#[trigger] bytes.subrange(0, longer))
}

/// The text that `bytes` encode, or `InvalidArgument` with the length of the
/// longest valid prefix where they are not valid UTF-8.
pub fn text_from_utf8<'a>(bytes: &'a [u8]) -> (result: Result<&'a str, CodecError>)
    ensures
        result is Ok <==> valid_utf8(bytes@),
        result is Ok ==> result->Ok_0.spec_bytes() == bytes@,
        result is Err ==> exists|position: usize|
            is_valid_up_to(bytes@, position as int) && result->Err_0
                == CodecError::InvalidArgument(InvalidReason::Utf8 { valid_up_to: position }),
{
    match fast_from_utf8(bytes) {
        Ok(text) => Ok(text),
        Err(_) => match detailed_from_utf8(bytes) {
            Ok(text) => Ok(text),
            Err(position) => Err(
                CodecError::InvalidArgument(InvalidReason::Utf8 { valid_up_to: position }),
            ),
        },
    }
}

/// The text in `range` of `slice`, counted from `offset`: the error of the
/// slicing where that fails, `InvalidArgument` where the bytes are not UTF-8.
#[inline]
pub fn string_from_slice<'a>(slice: &'a [u8], offset: usize, range: Range<usize>) -> (result:
    Result<&'a str, CodecError>)
    ensures
        result is Ok <==> slice_at_offset_of(slice@, offset, range.start, range.end) is Ok
            && valid_utf8(slice_at_offset_of(slice@, offset, range.start, range.end)->Ok_0),
        result is Ok ==> result->Ok_0.spec_bytes() == slice_at_offset_of(
            slice@,
            offset,
            range.start,
            range.end,
        )->Ok_0,
        result is Err && slice_at_offset_of(slice@, offset, range.start, range.end) is Err
            ==> result->Err_0 == slice_at_offset_of(
            slice@,
            offset,
            range.start,
            range.end,
        )->Err_0,
        result is Err && slice_at_offset_of(slice@, offset, range.start, range.end) is Ok
            ==> exists|position: usize|
            is_valid_up_to(
                slice_at_offset_of(slice@, offset, range.start, range.end)->Ok_0,
                position as int,
            ) && result->Err_0 == CodecError::InvalidArgument(
                InvalidReason::Utf8 { valid_up_to: position },
            ),
{
    let offset_buffer = slice_from_slice_at_offset(slice, offset, range)?;
    text_from_utf8(offset_buffer)
}

/// Whether a value of type `T` occupies exactly `expected` bytes.
pub fn expect_size_of<T>(expected: usize) -> (as_expected: bool)
    ensures
        as_expected == (vstd::layout::size_of::<T>() == expected),
{
    let size = core::mem::size_of::<T>();
    size == expected
}

/// An index as a mathematical integer.
pub open spec fn index_of(index: usize) -> int {
    index as int
}

/// A search result over mathematical integers.
pub open spec fn widened(result: Option<Result<usize, usize>>) -> Option<Result<int, int>> {
    match result {
        Some(Ok(index)) => Some(Ok(index as int)),
        Some(Err(index)) => Some(Err(index as int)),
        None => None,
    }
}

/// `keys` gives, for each index in `start..end`, what `key_extractor` returns there.
pub open spec fn extracts<K, F: Fn(usize) -> Option<K>>(
    keys: spec_fn(int) -> Option<K>,
    key_extractor: F,
    start: int,
    end: int,
) -> bool {
    forall|index: usize, key: Option<K>|
        start <= index_of(index) < end && #[trigger] call_ensures(key_extractor, (index,), key)
            ==> key == keys(index_of(index))
}

/// Whether `keys` gives no key at `index`.
pub open spec fn key_missing<K>(keys: spec_fn(int) -> Option<K>, index: int) -> bool {
    keys(index) is None
}

/// The outcome of a binary search for `target` over the indices `start..end`,
/// where `keys` gives the key at each index. The search probes the midpoint
/// `start + (end - start) / 2`: a missing key ends it with `None`, a key equal
/// to the target with `Ok` of the midpoint; a greater key sends it to the
/// indices below the midpoint, a smaller one to those above. An empty range
/// yields `Err` of its start, the place where the target would be inserted.
pub open spec fn search_outcome<K: Ord>(
    keys: spec_fn(int) -> Option<K>,
    start: int,
    end: int,
    target: K,
) -> Option<Result<int, int>>
    decreases end - start,
{
    if start >= end {
        Some(Err(start))
    } else {
        let mid = start + (end - start) / 2;
        match keys(mid) {
            None => None,
            Some(key) => match key.cmp_spec(&target) {
                Ordering::Equal => Some(Ok(mid)),
                Ordering::Greater => search_outcome(keys, start, mid, target),
                Ordering::Less => search_outcome(keys, mid + 1, end, target),
            },
        }
    }
}

/// Searches the indices of `range` for one whose key equals `target`, by
/// binary search with a key extraction that may fail: `None` as soon as a key
/// is missing, `Some(Ok(index))` for the first probe whose key equals the
/// target, `Some(Err(index))` with the insertion point where no probe does.
pub fn try_binary_search_range_by<K, F>(
    range: Range<usize>,
    target: &K,
    key_extractor: F,
) -> (result: Option<Result<usize, usize>>) where K: Ord, F: Fn(usize) -> Option<K>
    requires
        forall|index: usize|
            range.start <= index < range.end ==> call_requires(key_extractor, (index,)),
    ensures
        K::obeys_cmp_spec() ==> forall|keys: spec_fn(int) -> Option<K>|
            #[trigger] extracts(keys, key_extractor, index_of(range.start), index_of(range.end))
                ==> widened(result) == search_outcome(
                keys,
                index_of(range.start),
                index_of(range.end),
                *target,
            ),
{
    let Range { start, end } = range;
    let mut start = start;
    let mut end = end;
    while start < end
        invariant
            range.start <= start,
            end <= range.end,
            forall|index: usize|
                range.start <= index < range.end ==> call_requires(key_extractor, (index,)),
            K::obeys_cmp_spec() ==> forall|keys: spec_fn(int) -> Option<K>|
                #[trigger] extracts(
                    keys,
                    key_extractor,
                    index_of(range.start),
                    index_of(range.end),
                ) ==> search_outcome(keys, index_of(start), index_of(end), *target)
                    == search_outcome(
                    keys,
                    index_of(range.start),
                    index_of(range.end),
                    *target,
                ),
        decreases end - start,
    {
        let mid = start + (end - start) / 2;
        let probed = key_extractor(mid);
        match probed {
            None => {
                proof {
                    assert forall|keys: spec_fn(int) -> Option<K>|
                        #[trigger] extracts(
                            keys,
                            key_extractor,
                            index_of(range.start),
                            index_of(range.end),
                        ) implies keys(index_of(mid)) == probed by {
                        assert(call_ensures(key_extractor, (mid,), probed));
                    }
                }
                return None;
            },
            Some(key) => {
                let order = key.cmp(target);
                proof {
                    assert forall|keys: spec_fn(int) -> Option<K>|
                        #[trigger] extracts(
                            keys,
                            key_extractor,
                            index_of(range.start),
                            index_of(range.end),
                        ) implies keys(index_of(mid)) == probed by {
                        assert(call_ensures(key_extractor, (mid,), probed));
                    }
                }
                match order {
                    Ordering::Equal => {
                        return Some(Ok(mid));
                    },
                    Ordering::Greater => {
                        end = mid;
                    },
                    Ordering::Less => {
                        start = mid + 1;
                    },
                }
            },
        }
    }
    Some(Err(start))
}

/// Searching an empty range finds nothing and names the range's start as the
/// insertion point, whatever the keys and the target.
pub proof fn lemma_search_empty_range<K: Ord>(
    keys: spec_fn(int) -> Option<K>,
    start: int,
    end: int,
    target: K,
)
    requires
        start >= end,
    ensures
        search_outcome(keys, start, end, target) == Some(Err::<int, int>(start)),
{
}

/// A key missing at the first midpoint ends the search with `None`, whatever
/// the target.
pub proof fn lemma_search_missing_first_key<K: Ord>(
    keys: spec_fn(int) -> Option<K>,
    start: int,
    end: int,
    target: K,
)
    requires
        start < end,
        keys(start + (end - start) / 2) is None,
    ensures
        search_outcome(keys, start, end, target) is None,
{
}

/// What each outcome of a search says of the keys: `Ok` names an index of the
/// range whose key equals the target; `Err` names a place in the range that
/// has a smaller key just below it, unless it is the range's start, and a
/// greater key at it, unless it is the range's end; `None` means that a key
/// of the range is missing.
pub proof fn lemma_search_outcome_meaning<K: Ord>(
    keys: spec_fn(int) -> Option<K>,
    start: int,
    end: int,
    target: K,
)
    requires
        start <= end,
    ensures
        match search_outcome(keys, start, end, target) {
            Some(Ok(found)) => start <= found < end && keys(found) is Some
                && keys(found)->0.cmp_spec(&target) == Ordering::Equal,
            Some(Err(place)) => {
                &&& start <= place <= end
                &&& place > start ==> keys(place - 1) is Some && keys(place - 1)->0.cmp_spec(
                    &target,
                ) == Ordering::Less
                &&& place < end ==> keys(place) is Some && keys(place)->0.cmp_spec(&target)
                    == Ordering::Greater
            },
            None => exists|missing: int|
                start <= missing < end && #[trigger] key_missing(keys, missing),
        },
    decreases end - start,
{
    if start < end {
        let mid = start + (end - start) / 2;
        match keys(mid) {
            None => {
                assert(key_missing(keys, mid));
            },
            Some(key) => match key.cmp_spec(&target) {
                Ordering::Equal => {},
                Ordering::Greater => {
                    lemma_search_outcome_meaning(keys, start, mid, target);
                    if search_outcome(keys, start, mid, target) is None {
                        let missing = choose|missing: int|
                            start <= missing < mid && #[trigger] key_missing(keys, missing);
                        assert(key_missing(keys, missing));
                    }
                },
                Ordering::Less => {
                    lemma_search_outcome_meaning(keys, mid + 1, end, target);
                    if search_outcome(keys, mid + 1, end, target) is None {
                        let missing = choose|missing: int|
                            mid + 1 <= missing < end && #[trigger] key_missing(keys, missing);
                        assert(key_missing(keys, missing));
                    }
                },
            },
        }
    }
}

/// How the key at `index` stands to `target`.
pub open spec fn order_at<K: Ord>(
    keys: spec_fn(int) -> Option<K>,
    index: int,
    target: K,
) -> Ordering {
    keys(index)->0.cmp_spec(&target)
}

/// Every index of `start..end` has a key, and the keys are in order as far
/// as `target` can tell: no key smaller than the target comes after a key
/// that is not, and no key greater than the target comes before one that is
/// not.
pub open spec fn ordered_around<K: Ord>(
    keys: spec_fn(int) -> Option<K>,
    start: int,
    end: int,
    target: K,
) -> bool {
    &&& forall|index: int| start <= index < end ==> !#[trigger] key_missing(keys, index)
    &&& forall|low: int, high: int|
        start <= low <= high < end && #[trigger] order_at(keys, high, target) == Ordering::Less
            ==> #[trigger] order_at(keys, low, target) == Ordering::Less
    &&& forall|low: int, high: int|
        start <= low <= high < end && #[trigger] order_at(keys, low, target)
            == Ordering::Greater ==> #[trigger] order_at(keys, high, target)
            == Ordering::Greater
}

/// Over keys that are in order, the search never fails, finds the target
/// where a key equals it, and otherwise names the insertion point: every
/// key before it is smaller than the target, every key from it on greater.
pub proof fn lemma_search_insertion_point<K: Ord>(
    keys: spec_fn(int) -> Option<K>,
    start: int,
    end: int,
    target: K,
)
    requires
        start <= end,
        ordered_around(keys, start, end, target),
    ensures
        match search_outcome(keys, start, end, target) {
            Some(Ok(found)) => start <= found < end && order_at(keys, found, target)
                == Ordering::Equal,
            Some(Err(place)) => {
                &&& start <= place <= end
                &&& forall|index: int|
                    start <= index < place ==> #[trigger] order_at(keys, index, target)
                        == Ordering::Less
                &&& forall|index: int|
                    place <= index < end ==> #[trigger] order_at(keys, index, target)
                        == Ordering::Greater
            },
            None => false,
        },
    decreases end - start,
{
    if start < end {
        let mid = start + (end - start) / 2;
        assert(!key_missing(keys, mid));
        match order_at(keys, mid, target) {
            Ordering::Equal => {},
            Ordering::Greater => {
                lemma_search_insertion_point(keys, start, mid, target);
                match search_outcome(keys, start, mid, target) {
                    Some(Err(place)) => {
                        assert forall|index: int| place <= index < end implies order_at(
                            keys,
                            index,
                            target,
                        ) == Ordering::Greater by {
                            if index >= mid {
                                assert(order_at(keys, mid, target) == Ordering::Greater);
                            }
                        }
                    },
                    _ => {},
                }
            },
            Ordering::Less => {
                lemma_search_insertion_point(keys, mid + 1, end, target);
                match search_outcome(keys, mid + 1, end, target) {
                    Some(Err(place)) => {
                        assert forall|index: int| start <= index < place implies order_at(
                            keys,
                            index,
                            target,
                        ) == Ordering::Less by {
                            if index <= mid {
                                assert(order_at(keys, mid, target) == Ordering::Less);
                            }
                        }
                    },
                    _ => {},
                }
            },
        }
    }
}

} // verus!
