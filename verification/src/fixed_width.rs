//! The PLAIN codec of values that occupy the same number of bytes each.

use crate::byte_order::ByteOrder;
use crate::cursor::{CursorView, PlainDecoderDetails};
use crate::errors::CodecError;
use crate::sealed::Sealed;
use vstd::prelude::*;

verus! {

/// What each item of `items` stands for.
pub open spec fn views<T: View>(items: Seq<T>) -> Seq<T::V> {
    Seq::new(items.len(), |i: int| items[i]@)
}

/// A physical type whose values are encoded as a fixed number of bytes.
pub trait FixedWidth: Sized + View + Sealed {
    /// The number of bytes of an encoded value.
    spec fn width() -> nat;

    /// Whether `value` is what some value of this type stands for.
    spec fn valid(value: Self::V) -> bool;

    /// The bytes that encode `value`.
    spec fn wire(value: Self::V, order: ByteOrder) -> Seq<u8>;

    /// The value that `bytes` encode.
    spec fn unwire(bytes: Seq<u8>, order: ByteOrder) -> Self::V;

    /// A valid value is encoded in `width()` bytes, at least one, which
    /// decode to the value.
    proof fn lemma_wire(value: Self::V, order: ByteOrder)
        requires
            Self::valid(value),
        ensures
            Self::width() > 0,
            Self::wire(value, order).len() == Self::width(),
            Self::unwire(Self::wire(value, order), order) == value,
    ;

    /// The number of bytes of an encoded value.
    fn encoded_width() -> (width: usize)
        ensures
            0 < width <= 16,
            width == Self::width(),
    ;

    /// Appends to `out` the bytes that encode this value.
    fn write(&self, order: ByteOrder, out: &mut Vec<u8>)
        ensures
            Self::valid(self@),
            final(out)@ == old(out)@ + Self::wire(self@, order),
    ;

    /// The value that the `width()` bytes of `bytes` from `pos` on encode.
    fn read(bytes: &[u8], pos: usize, order: ByteOrder) -> (value: Self)
        requires
            pos + Self::width() <= bytes.len(),
        ensures
            Self::valid(value@),
            value@ == Self::unwire(bytes@.subrange(pos as int, pos + Self::width()), order),
    ;
}

/// The bytes that encode `values`, one value after the other.
pub open spec fn fixed_bytes<T: FixedWidth>(values: Seq<T::V>, order: ByteOrder) -> Seq<u8>
    decreases values.len(),
{
    if values.len() == 0 {
        Seq::empty()
    } else {
        fixed_bytes::<T>(values.drop_last(), order) + T::wire(values.last(), order)
    }
}

/// The `count` values encoded in `bytes` from `start` on.
pub open spec fn fixed_values<T: FixedWidth>(
    bytes: Seq<u8>,
    start: int,
    count: nat,
    order: ByteOrder,
) -> Seq<T::V> {
    Seq::new(
        count,
        |i: int|
            T::unwire(bytes.subrange(start + i * T::width(), start + (i + 1) * T::width()), order),
    )
}

/// Whether the cursor holds the bytes of `count` more values.
pub open spec fn fixed_available<T: FixedWidth>(cursor: CursorView, count: nat) -> bool {
    count * T::width() <= cursor.bytes_left()
}

/// The cursor after skipping `count` values; `None` where it holds fewer bytes.
pub open spec fn fixed_skipped<T: FixedWidth>(cursor: CursorView, count: nat) -> Option<
    CursorView,
> {
    if fixed_available::<T>(cursor, count) {
        Some(cursor.advanced(count * T::width(), count))
    } else {
        None
    }
}

/// The next `count` values and the cursor after them; `None` where the cursor
/// holds fewer bytes.
pub open spec fn fixed_decoded<T: FixedWidth>(cursor: CursorView, count: nat) -> Option<
    (Seq<T::V>, CursorView),
> {
    if fixed_available::<T>(cursor, count) {
        Some(
            (
                fixed_values::<T>(cursor.bytes(), cursor.start as int, count, cursor.order),
                cursor.advanced(count * T::width(), count),
            ),
        )
    } else {
        None
    }
}

/// The smaller of two counts.
pub open spec fn at_most(count: nat, limit: nat) -> nat {
    if count <= limit {
        count
    } else {
        limit
    }
}

/// Appends to `writer` the bytes that encode `values`.
pub fn fixed_encode<T: FixedWidth>(values: &[T], order: ByteOrder, writer: &mut Vec<u8>)
    ensures
        final(writer)@ == old(writer)@ + fixed_bytes::<T>(views(values@), order),
{
    let ghost before = writer@;
    let mut i: usize = 0;
    while i < values.len()
        invariant
            i <= values.len(),
            writer@ == before + fixed_bytes::<T>(views(values@).take(i as int), order),
        decreases values.len() - i,
    {
        let ghost so_far = writer@;
        values[i].write(order, writer);
        proof {
            let next = views(values@).take(i + 1);
            assert(next.drop_last() =~= views(values@).take(i as int));
            assert(next.last() == values@[i as int]@);
            assert(writer@ =~= before + fixed_bytes::<T>(next, order));
        }
        i += 1;
    }
    assert(views(values@).take(values@.len() as int) =~= views(values@));
}

/// The number of bytes of `count` values, where the cursor holds that many.
fn fixed_span<T: FixedWidth>(decoder: &PlainDecoderDetails, count: usize) -> (span: Option<usize>)
    requires
        decoder.wf(),
    ensures
        span is Some <==> fixed_available::<T>(decoder@, count as nat),
        span is Some ==> span->0 <= decoder@.bytes_left(),
        span is Some ==> span->0 == count * T::width(),
{
    let width = T::encoded_width();
    let bytes_left = decoder.bytes().len() - decoder.start();
    assert(width * count == count * width) by (nonlinear_arith);
    match width.checked_mul(count) {
        Some(bytes_needed) => {
            if bytes_left < bytes_needed {
                None
            } else {
                Some(bytes_needed)
            }
        },
        None => None,
    }
}

/// Skips `min(num_values, remaining)` values: `UnexpectedEof`, and the cursor
/// as it was, where the cursor holds fewer bytes.
pub fn fixed_skip<T: FixedWidth>(decoder: &mut PlainDecoderDetails, num_values: usize) -> (result:
    Result<usize, CodecError>)
    requires
        old(decoder).wf(),
        old(decoder)@.data is Some,
        old(decoder)@.bit_offset == 0,
    ensures
        final(decoder).wf(),
        match fixed_skipped::<T>(
            old(decoder)@,
            at_most(num_values as nat, old(decoder)@.num_values),
        ) {
            Some(cursor) => result == Ok::<usize, CodecError>(
                at_most(num_values as nat, old(decoder)@.num_values) as usize,
            ) && final(decoder)@ == cursor,
            None => result == Err::<usize, CodecError>(CodecError::UnexpectedEof)
                && final(decoder)@ == old(decoder)@,
        },
{
    let count = if num_values <= decoder.num_values() {
        num_values
    } else {
        decoder.num_values()
    };
    match fixed_span::<T>(decoder, count) {
        Some(bytes_to_skip) => {
            decoder.advance(bytes_to_skip, count);
            Ok(count)
        },
        None => Err(CodecError::UnexpectedEof),
    }
}

/// Decodes `min(buffer.len(), remaining)` values into the front of `buffer`:
/// `UnexpectedEof`, with the cursor and the buffer as they were, where the
/// cursor holds fewer bytes.
pub fn fixed_decode<T: FixedWidth>(buffer: &mut [T], decoder: &mut PlainDecoderDetails) -> (result:
    Result<usize, CodecError>)
    requires
        old(decoder).wf(),
        old(decoder)@.data is Some,
        old(decoder)@.bit_offset == 0,
    ensures
        final(decoder).wf(),
        final(buffer)@.len() == old(buffer)@.len(),
        match fixed_decoded::<T>(
            old(decoder)@,
            at_most(old(buffer)@.len(), old(decoder)@.num_values),
        ) {
            Some((values, cursor)) => {
                &&& result == Ok::<usize, CodecError>(values.len() as usize)
                &&& final(decoder)@ == cursor
                &&& views(final(buffer)@) == values + views(old(buffer)@).skip(values.len() as int)
            },
            None => {
                &&& result == Err::<usize, CodecError>(CodecError::UnexpectedEof)
                &&& final(decoder)@ == old(decoder)@
                &&& final(buffer)@ == old(buffer)@
            },
        },
{
    let count = if buffer.len() <= decoder.num_values() {
        buffer.len()
    } else {
        decoder.num_values()
    };
    let bytes_to_decode = match fixed_span::<T>(decoder, count) {
        Some(span) => span,
        None => {
            return Err(CodecError::UnexpectedEof);
        },
    };
    let ghost before = buffer@;
    let ghost values = fixed_values::<T>(
        decoder@.bytes(),
        decoder@.start as int,
        count as nat,
        decoder@.order,
    );
    let width = T::encoded_width();
    let order = decoder.byte_order();
    let start = decoder.start();
    let bytes = decoder.bytes();
    let mut pos: usize = start;
    let mut i: usize = 0;
    while i < count
        invariant
            i <= count <= before.len(),
            buffer@.len() == before.len(),
            width == T::width(),
            pos == start + i * width,
            start + count * width <= bytes.len(),
            values == fixed_values::<T>(bytes@, start as int, count as nat, order),
            forall|j: int| 0 <= j < i ==> (#[trigger] buffer@[j])@ == values[j],
            forall|j: int| i <= j < before.len() ==> buffer@[j] == before[j],
        decreases count - i,
    {
        proof {
            assert((i + 1) * width == i * width + width) by (nonlinear_arith);
            assert((i + 1) * width <= count * width) by (nonlinear_arith)
                requires
                    i < count,
                    width >= 0,
            ;
        }
        let value = T::read(bytes, pos, order);
        buffer[i] = value;
        pos += width;
        i += 1;
    }
    proof {
        assert(views(buffer@) =~= values + views(before).skip(count as int));
    }
    decoder.advance(bytes_to_decode, count);
    Ok(count)
}

/// Skipping and decoding succeed on the same cursors and leave the same cursor.
pub proof fn lemma_fixed_skip_as_decode<T: FixedWidth>(cursor: CursorView, count: nat)
    ensures
        fixed_skipped::<T>(cursor, count) == match fixed_decoded::<T>(cursor, count) {
            Some((_, next)) => Some(next),
            None => None,
        },
{
}

/// The encoding of valid values is laid out value by value: it has
/// `width()` bytes for each, and those at the place of a value encode it.
pub proof fn lemma_fixed_bytes_layout<T: FixedWidth>(values: Seq<T::V>, order: ByteOrder)
    requires
        forall|i: int| 0 <= i < values.len() ==> T::valid(#[trigger] values[i]),
    ensures
        fixed_bytes::<T>(values, order).len() == values.len() * T::width(),
        forall|i: int|
            0 <= i < values.len() ==> #[trigger] fixed_bytes::<T>(values, order).subrange(
                i * T::width(),
                (i + 1) * T::width(),
            ) == T::wire(values[i], order),
    decreases values.len(),
{
    let width = T::width();
    let count = values.len();
    if count > 0 {
        let front = values.drop_last();
        let all = fixed_bytes::<T>(values, order);
        let head = fixed_bytes::<T>(front, order);
        lemma_fixed_bytes_layout::<T>(front, order);
        T::lemma_wire(values.last(), order);
        assert(count * width == (count - 1) * width + width) by (nonlinear_arith);
        assert forall|i: int| 0 <= i < count implies #[trigger] all.subrange(
            i * width,
            (i + 1) * width,
        ) == T::wire(values[i], order) by {
            assert((i + 1) * width == i * width + width) by (nonlinear_arith);
            assert(0 <= i * width) by (nonlinear_arith)
                requires
                    0 <= i,
                    0 <= width,
            ;
            if i < count - 1 {
                assert((i + 1) * width <= (count - 1) * width) by (nonlinear_arith)
                    requires
                        i + 1 <= count - 1,
                        0 <= width,
                ;
                assert(all.subrange(i * width, (i + 1) * width) =~= head.subrange(
                    i * width,
                    (i + 1) * width,
                ));
                assert(front[i] == values[i]);
            } else {
                assert(all.subrange(i * width, (i + 1) * width) =~= T::wire(
                    values.last(),
                    order,
                ));
            }
        }
    } else {
        assert(count * width == 0) by (nonlinear_arith)
            requires
                count == 0,
        ;
    }
}

/// Decoding what was encoded yields the values that were encoded: a cursor
/// at the beginning of the encoding of valid values, with at least as many
/// values to come, decodes to these values and ends where the encoding ends.
pub proof fn lemma_fixed_round_trip<T: FixedWidth>(values: Seq<T::V>, cursor: CursorView)
    requires
        forall|i: int| 0 <= i < values.len() ==> T::valid(#[trigger] values[i]),
        cursor.data == Some(fixed_bytes::<T>(values, cursor.order)),
        cursor.start == 0,
        cursor.num_values >= values.len(),
    ensures
        fixed_decoded::<T>(cursor, values.len()) == Some(
            (
                values,
                cursor.advanced(fixed_bytes::<T>(values, cursor.order).len(), values.len()),
            ),
        ),
{
    let order = cursor.order;
    let bytes = fixed_bytes::<T>(values, order);
    lemma_fixed_bytes_layout::<T>(values, order);
    let decoded = fixed_values::<T>(bytes, 0, values.len(), order);
    assert forall|i: int| 0 <= i < values.len() implies decoded[i] == values[i] by {
        T::lemma_wire(values[i], order);
        assert(bytes.subrange(i * T::width(), (i + 1) * T::width()) == T::wire(values[i], order));
    }
    assert(decoded =~= values);
}

} // verus!
