//! The PLAIN codec of byte arrays whose length the column fixes: the bytes
//! of each value and nothing else.

use crate::byte_array::{ByteArray, FixedLenByteArray};
use crate::cursor::{CursorView, PlainDecoderDetails};
use crate::errors::CodecError;
use crate::fixed_width::{at_most, views};
use crate::length_prefixed::append_bytes;
use vstd::prelude::*;

verus! {

/// The bytes that encode `values`: the data of each, one after the other.
pub open spec fn raw_bytes(values: Seq<Option<Seq<u8>>>) -> Seq<u8>
    decreases values.len(),
{
    if values.len() == 0 {
        Seq::empty()
    } else {
        raw_bytes(values.drop_last()) + values.last()->0
    }
}

/// Whether a byte array has data of exactly `type_length` bytes.
pub open spec fn of_length(value: Option<Seq<u8>>, type_length: int) -> bool {
    value is Some && value->0.len() == type_length
}

/// The `count` values of `width` bytes each that begin at `start` in `bytes`.
pub open spec fn raw_values(bytes: Seq<u8>, start: int, count: nat, width: int) -> Seq<
    Option<Seq<u8>>,
> {
    Seq::new(count, |i: int| Some(bytes.subrange(start + i * width, start + (i + 1) * width)))
}

/// Whether the cursor holds the bytes of `count` more values.
pub open spec fn raw_available(cursor: CursorView, count: nat) -> bool {
    count * cursor.type_length <= cursor.bytes_left()
}

/// The cursor after skipping `count` values; `None` where it holds fewer bytes.
pub open spec fn raw_skipped(cursor: CursorView, count: nat) -> Option<CursorView> {
    if raw_available(cursor, count) {
        Some(cursor.advanced((count * cursor.type_length) as nat, count))
    } else {
        None
    }
}

/// The next `count` values and the cursor after them; `None` where the cursor
/// holds fewer bytes.
pub open spec fn raw_decoded(cursor: CursorView, count: nat) -> Option<
    (Seq<Option<Seq<u8>>>, CursorView),
> {
    if raw_available(cursor, count) {
        Some(
            (
                raw_values(cursor.bytes(), cursor.start as int, count, cursor.type_length),
                cursor.advanced((count * cursor.type_length) as nat, count),
            ),
        )
    } else {
        None
    }
}

/// Appends to `writer` the data of each value.
pub fn raw_encode(values: &[FixedLenByteArray], writer: &mut Vec<u8>)
    requires
        forall|i: int| 0 <= i < values@.len() ==> (#[trigger] values@[i]@) is Some,
    ensures
        final(writer)@ == old(writer)@ + raw_bytes(views(values@)),
{
    let ghost before = writer@;
    let mut i: usize = 0;
    while i < values.len()
        invariant
            i <= values.len(),
            forall|i: int| 0 <= i < values@.len() ==> (#[trigger] values@[i]@) is Some,
            writer@ == before + raw_bytes(views(values@).take(i as int)),
        decreases values.len() - i,
    {
        let value: &ByteArray = &values[i];
        assert(value@ == values@[i as int]@);
        append_bytes(writer, value.data());
        proof {
            let next = views(values@).take(i + 1);
            assert(next.drop_last() =~= views(values@).take(i as int));
            assert(next.last() == values@[i as int]@);
            assert(writer@ =~= before + raw_bytes(next));
        }
        i += 1;
    }
    assert(views(values@).take(values@.len() as int) =~= views(values@));
}

/// The number of bytes of `count` values, where the cursor holds that many.
fn raw_span(decoder: &PlainDecoderDetails, count: usize) -> (span: Option<usize>)
    requires
        decoder.wf(),
        decoder@.type_length > 0,
    ensures
        span is Some <==> raw_available(decoder@, count as nat),
        span is Some ==> span->0 == count * decoder@.type_length,
        span is Some ==> span->0 <= decoder@.bytes_left(),
{
    let width = decoder.type_length() as usize;
    let bytes_left = decoder.bytes().len() - decoder.start();
    assert(width * count == count * width) by (nonlinear_arith);
    match width.checked_mul(count) {
        Some(bytes_needed) => {
            if bytes_left < bytes_needed {
                None
            } else {
                Some(bytes_needed)
            }
        },
        None => None,
    }
}

/// Skips `min(num_values, remaining)` values: `UnexpectedEof`, and the cursor
/// as it was, where the cursor holds fewer bytes.
pub fn raw_skip(decoder: &mut PlainDecoderDetails, num_values: usize) -> (result: Result<
    usize,
    CodecError,
>)
    requires
        old(decoder).wf(),
        old(decoder)@.data is Some,
        old(decoder)@.bit_offset == 0,
        old(decoder)@.type_length > 0,
    ensures
        final(decoder).wf(),
        match raw_skipped(old(decoder)@, at_most(num_values as nat, old(decoder)@.num_values)) {
            Some(cursor) => result == Ok::<usize, CodecError>(
                at_most(num_values as nat, old(decoder)@.num_values) as usize,
            ) && final(decoder)@ == cursor,
            None => result == Err::<usize, CodecError>(CodecError::UnexpectedEof)
                && final(decoder)@ == old(decoder)@,
        },
{
    let count = if num_values <= decoder.num_values() {
        num_values
    } else {
        decoder.num_values()
    };
    match raw_span(decoder, count) {
        Some(bytes_to_skip) => {
            decoder.advance(bytes_to_skip, count);
            Ok(count)
        },
        None => Err(CodecError::UnexpectedEof),
    }
}

/// Decodes `min(buffer.len(), remaining)` values into the front of `buffer`,
/// each sharing the cursor's data: `UnexpectedEof`, with the cursor and the
/// buffer as they were, where the cursor holds fewer bytes.
pub fn raw_decode(buffer: &mut [FixedLenByteArray], decoder: &mut PlainDecoderDetails) -> (result:
    Result<usize, CodecError>)
    requires
        old(decoder).wf(),
        old(decoder)@.data is Some,
        old(decoder)@.bit_offset == 0,
        old(decoder)@.type_length > 0,
    ensures
        final(decoder).wf(),
        final(buffer)@.len() == old(buffer)@.len(),
        match raw_decoded(old(decoder)@, at_most(old(buffer)@.len(), old(decoder)@.num_values)) {
            Some((values, cursor)) => {
                &&& result == Ok::<usize, CodecError>(values.len() as usize)
                &&& final(decoder)@ == cursor
                &&& views(final(buffer)@) == values + views(old(buffer)@).skip(values.len() as int)
            },
            None => {
                &&& result == Err::<usize, CodecError>(CodecError::UnexpectedEof)
                &&& final(decoder)@ == old(decoder)@
                &&& final(buffer)@ == old(buffer)@
            },
        },
{
    let count = if buffer.len() <= decoder.num_values() {
        buffer.len()
    } else {
        decoder.num_values()
    };
    let bytes_to_decode = match raw_span(decoder, count) {
        Some(span) => span,
        None => {
            return Err(CodecError::UnexpectedEof);
        },
    };
    let ghost before = buffer@;
    let width = decoder.type_length() as usize;
    let start = decoder.start();
    let ghost bytes = decoder@.bytes();
    let total = decoder.bytes().len();
    let ghost values = raw_values(bytes, start as int, count as nat, width as int);
    let mut pos: usize = start;
    let mut i: usize = 0;
    while i < count
        invariant
            i <= count <= before.len(),
            buffer@.len() == before.len(),
            decoder@.data is Some,
            bytes == decoder@.bytes(),
            width > 0,
            pos == start + i * width,
            start + count * width <= bytes.len() == total,
            values == raw_values(bytes, start as int, count as nat, width as int),
            forall|j: int| 0 <= j < i ==> (#[trigger] buffer@[j])@ == values[j],
            forall|j: int| i <= j < before.len() ==> buffer@[j] == before[j],
        decreases count - i,
    {
        proof {
            assert((i + 1) * width == i * width + width) by (nonlinear_arith);
            assert((i + 1) * width <= count * width) by (nonlinear_arith)
                requires
                    i < count,
                    width >= 0,
            ;
        }
        let value = FixedLenByteArray::from(ByteArray::from(decoder.share(pos, pos + width)));
        buffer[i] = value;
        pos += width;
        i += 1;
    }
    proof {
        assert(views(buffer@) =~= values + views(before).skip(count as int));
    }
    decoder.advance(bytes_to_decode, count);
    Ok(count)
}

/// Skipping and decoding succeed on the same cursors and leave the same cursor.
pub proof fn lemma_raw_skip_as_decode(cursor: CursorView, count: nat)
    ensures
        raw_skipped(cursor, count) == match raw_decoded(cursor, count) {
            Some((_, next)) => Some(next),
            None => None,
        },
{
}

/// The encoding of values of `width` bytes each is laid out value by value.
pub proof fn lemma_raw_bytes_layout(values: Seq<Option<Seq<u8>>>, width: int)
    requires
        0 <= width,
        forall|i: int| 0 <= i < values.len() ==> of_length(#[trigger] values[i], width),
    ensures
        raw_bytes(values).len() == values.len() * width,
        forall|i: int|
            0 <= i < values.len() ==> Some(
                #[trigger] raw_bytes(values).subrange(i * width, (i + 1) * width),
            ) == values[i],
    decreases values.len(),
{
    let count = values.len();
    if count > 0 {
        let front = values.drop_last();
        let all = raw_bytes(values);
        let head = raw_bytes(front);
        lemma_raw_bytes_layout(front, width);
        assert(count * width == (count - 1) * width + width) by (nonlinear_arith);
        assert forall|i: int| 0 <= i < count implies Some(
            #[trigger] all.subrange(i * width, (i + 1) * width),
        ) == values[i] by {
            assert((i + 1) * width == i * width + width) by (nonlinear_arith);
            assert(0 <= i * width) by (nonlinear_arith)
                requires
                    0 <= i,
                    0 <= width,
            ;
            if i < count - 1 {
                assert((i + 1) * width <= (count - 1) * width) by (nonlinear_arith)
                    requires
                        i + 1 <= count - 1,
                        0 <= width,
                ;
                assert(all.subrange(i * width, (i + 1) * width) =~= head.subrange(
                    i * width,
                    (i + 1) * width,
                ));
                assert(front[i] == values[i]);
            } else {
                assert(of_length(values[i], width));
                assert(all.subrange(i * width, (i + 1) * width) =~= values.last()->0);
            }
        }
    } else {
        assert(count * width == 0) by (nonlinear_arith)
            requires
                count == 0,
        ;
    }
}

/// Decoding what was encoded yields the values that were encoded: a cursor
/// at the beginning of the encoding of byte arrays of the column's length,
/// with at least as many values to come, decodes to these values and ends
/// where the encoding ends.
pub proof fn lemma_raw_round_trip(values: Seq<Option<Seq<u8>>>, cursor: CursorView)
    requires
        cursor.type_length > 0,
        forall|i: int|
            0 <= i < values.len() ==> of_length(#[trigger] values[i], cursor.type_length),
        cursor.data == Some(raw_bytes(values)),
        cursor.start == 0,
        cursor.num_values >= values.len(),
    ensures
        raw_decoded(cursor, values.len()) == Some(
            (values, cursor.advanced(raw_bytes(values).len(), values.len())),
        ),
{
    let bytes = raw_bytes(values);
    let width = cursor.type_length;
    lemma_raw_bytes_layout(values, width);
    let decoded = raw_values(bytes, 0, values.len(), width);
    assert forall|i: int| 0 <= i < values.len() implies decoded[i] == values[i] by {
        assert(Some(bytes.subrange(i * width, (i + 1) * width)) == values[i]);
    }
    assert(decoded =~= values);
}

} // verus!
