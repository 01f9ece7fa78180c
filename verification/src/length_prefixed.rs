//! The PLAIN codec of variable-length byte arrays: each value is a length in
//! four bytes, followed by that many bytes.

use crate::byte_array::ByteArray;
use crate::byte_order::{
    ByteOrder, lemma_radix_pow_values, lemma_uint_round_trip, read_uint, uint_bytes, uint_value,
    write_uint,
};
use crate::cursor::{CursorView, PlainDecoderDetails};
use crate::errors::CodecError;
use crate::fixed_width::{at_most, views};
use vstd::prelude::*;

verus! {

/// The number of bytes of a length prefix.
pub const PREFIX_WIDTH: usize = 4;

/// Whether a byte array can be encoded: it has data, and the length of the
/// data fits the prefix.
pub open spec fn prefixable(value: Option<Seq<u8>>) -> bool {
    value is Some && value->0.len() <= u32::MAX
}

/// The bytes that encode one byte array: its length, then its data.
pub open spec fn prefixed_one(value: Option<Seq<u8>>, order: ByteOrder) -> Seq<u8> {
    uint_bytes(value->0.len(), 4, order) + value->0
}

/// The bytes that encode `values`, one value after the other.
pub open spec fn prefixed_bytes(values: Seq<Option<Seq<u8>>>, order: ByteOrder) -> Seq<u8>
    decreases values.len(),
{
    if values.len() == 0 {
        Seq::empty()
    } else {
        prefixed_one(values.first(), order) + prefixed_bytes(values.drop_first(), order)
    }
}

/// The length that the prefix at `pos` announces.
pub open spec fn prefix_at(bytes: Seq<u8>, pos: int, order: ByteOrder) -> nat {
    uint_value(bytes.subrange(pos, pos + 4), order)
}

/// Whether `bytes` hold, at `pos`, a whole prefix and the data it announces.
pub open spec fn value_at(bytes: Seq<u8>, pos: int, order: ByteOrder) -> bool {
    pos + 4 <= bytes.len() && pos + 4 + prefix_at(bytes, pos, order) <= bytes.len()
}

/// The place in `bytes` after the `count` values that begin at `pos`; `None`
/// where `bytes` end before one of them does.
pub open spec fn prefixed_end(bytes: Seq<u8>, pos: int, count: nat, order: ByteOrder) -> Option<
    int,
>
    decreases count,
{
    if count == 0 {
        Some(pos)
    } else if !value_at(bytes, pos, order) {
        None
    } else {
        prefixed_end(bytes, pos + 4 + prefix_at(bytes, pos, order), (count - 1) as nat, order)
    }
}

/// The `count` values that begin at `pos` in `bytes`, and the place after
/// them; `None` where `bytes` end before one of them does.
pub open spec fn prefixed_values(bytes: Seq<u8>, pos: int, count: nat, order: ByteOrder) -> Option<
    (Seq<Option<Seq<u8>>>, int),
>
    decreases count,
{
    if count == 0 {
        Some((Seq::empty(), pos))
    } else if !value_at(bytes, pos, order) {
        None
    } else {
        let len = prefix_at(bytes, pos, order);
        match prefixed_values(bytes, pos + 4 + len, (count - 1) as nat, order) {
            Some((rest, end)) => Some(
                (seq![Some(bytes.subrange(pos + 4, pos + 4 + len))] + rest, end),
            ),
            None => None,
        }
    }
}

/// The cursor after skipping `count` values; `None` where the data end
/// before one of them does.
pub open spec fn prefixed_skipped(cursor: CursorView, count: nat) -> Option<CursorView> {
    match prefixed_end(cursor.bytes(), cursor.start as int, count, cursor.order) {
        Some(end) => Some(cursor.advanced((end - cursor.start) as nat, count)),
        None => None,
    }
}

/// The next `count` values and the cursor after them; `None` where the data
/// end before one of them does.
pub open spec fn prefixed_decoded(cursor: CursorView, count: nat) -> Option<
    (Seq<Option<Seq<u8>>>, CursorView),
> {
    match prefixed_values(cursor.bytes(), cursor.start as int, count, cursor.order) {
        Some((values, end)) => Some((values, cursor.advanced((end - cursor.start) as nat, count))),
        None => None,
    }
}

/// The values end where skipping them ends, and there are `count` of them.
pub proof fn lemma_prefixed_values_end(bytes: Seq<u8>, pos: int, count: nat, order: ByteOrder)
    requires
        0 <= pos,
    ensures
        prefixed_end(bytes, pos, count, order) == match prefixed_values(bytes, pos, count, order) {
            Some((_, end)) => Some(end),
            None => None,
        },
        prefixed_values(bytes, pos, count, order) matches Some((values, end)) ==> {
            &&& values.len() == count
            &&& pos <= end
            &&& count == 0 || end <= bytes.len()
        },
    decreases count,
{
    if count > 0 && value_at(bytes, pos, order) {
        lemma_prefixed_values_end(
            bytes,
            pos + 4 + prefix_at(bytes, pos, order),
            (count - 1) as nat,
            order,
        );
    }
}

/// Skipping and decoding succeed on the same cursors and leave the same cursor.
pub proof fn lemma_prefixed_skip_as_decode(cursor: CursorView, count: nat)
    ensures
        prefixed_skipped(cursor, count) == match prefixed_decoded(cursor, count) {
            Some((_, next)) => Some(next),
            None => None,
        },
{
    lemma_prefixed_values_end(cursor.bytes(), cursor.start as int, count, cursor.order);
}

/// The encoding of a batch followed by one more value is the encoding of
/// the batch followed by that of the value.
pub proof fn lemma_prefixed_bytes_push(
    values: Seq<Option<Seq<u8>>>,
    value: Option<Seq<u8>>,
    order: ByteOrder,
)
    ensures
        prefixed_bytes(values.push(value), order) == prefixed_bytes(values, order) + prefixed_one(
            value,
            order,
        ),
    decreases values.len(),
{
    if values.len() == 0 {
        assert(values.push(value).drop_first() =~= Seq::<Option<Seq<u8>>>::empty());
        assert(values.push(value).first() == value);
        assert(prefixed_bytes(Seq::<Option<Seq<u8>>>::empty(), order) =~= Seq::<u8>::empty());
        assert(prefixed_bytes(values.push(value), order) == prefixed_one(value, order)
            + prefixed_bytes(values.push(value).drop_first(), order));
        assert(prefixed_bytes(values.push(value), order) =~= prefixed_one(value, order));
        assert(prefixed_bytes(values, order) + prefixed_one(value, order) =~= prefixed_one(
            value,
            order,
        ));
    } else {
        lemma_prefixed_bytes_push(values.drop_first(), value, order);
        assert(values.push(value).drop_first() =~= values.drop_first().push(value));
        assert(prefixed_bytes(values.push(value), order) =~= prefixed_bytes(values, order)
            + prefixed_one(value, order));
    }
}

/// Appends `bytes` to `out`.
pub fn append_bytes(out: &mut Vec<u8>, bytes: &[u8])
    ensures
        final(out)@ == old(out)@ + bytes@,
{
    let ghost before = out@;
    let mut i: usize = 0;
    while i < bytes.len()
        invariant
            i <= bytes.len(),
            out@ == before + bytes@.take(i as int),
        decreases bytes.len() - i,
    {
        out.push(bytes[i]);
        assert(out@ =~= before + bytes@.take(i + 1));
        i += 1;
    }
    assert(bytes@.take(bytes@.len() as int) =~= bytes@);
}

/// Appends to `writer` the bytes that encode `values`.
pub fn prefixed_encode(values: &[ByteArray], order: ByteOrder, writer: &mut Vec<u8>)
    requires
        forall|i: int| 0 <= i < values@.len() ==> prefixable(#[trigger] values@[i]@),
    ensures
        final(writer)@ == old(writer)@ + prefixed_bytes(views(values@), order),
{
    let ghost before = writer@;
    let mut i: usize = 0;
    proof {
        assert(views(values@).take(0) =~= Seq::<Option<Seq<u8>>>::empty());
        assert(writer@ =~= before + prefixed_bytes(views(values@).take(0), order));
    }
    while i < values.len()
        invariant
            i <= values.len(),
            forall|i: int| 0 <= i < values@.len() ==> prefixable(#[trigger] values@[i]@),
            writer@ == before + prefixed_bytes(views(values@).take(i as int), order),
        decreases values.len() - i,
    {
        let value = &values[i];
        let len = value.len();
        proof {
            lemma_radix_pow_values();
            assert(prefixable(values@[i as int]@));
        }
        write_uint(len as u64, PREFIX_WIDTH, order, writer);
        append_bytes(writer, value.data());
        proof {
            let done = views(values@).take(i as int);
            lemma_prefixed_bytes_push(done, value@, order);
            assert(views(values@).take(i + 1) =~= done.push(value@));
            assert(writer@ =~= before + prefixed_bytes(views(values@).take(i + 1), order));
        }
        i += 1;
    }
    assert(views(values@).take(values@.len() as int) =~= views(values@));
}

/// The place after the `count` values that begin at the cursor, where the
/// data hold them all.
fn prefixed_scan(decoder: &PlainDecoderDetails, count: usize) -> (end: Option<usize>)
    requires
        decoder.wf(),
    ensures
        end is Some <==> prefixed_end(
            decoder@.bytes(),
            decoder@.start as int,
            count as nat,
            decoder@.order,
        ) is Some,
        end is Some ==> end->0 == prefixed_end(
            decoder@.bytes(),
            decoder@.start as int,
            count as nat,
            decoder@.order,
        )->0,
        end is Some ==> decoder@.start <= end->0 <= decoder@.bytes().len(),
{
    let bytes = decoder.bytes();
    let order = decoder.byte_order();
    let mut pos: usize = decoder.start();
    let mut i: usize = 0;
    while i < count
        invariant
            i <= count,
            decoder@.start <= pos <= bytes.len(),
            bytes@ == decoder@.bytes(),
            order == decoder@.order,
            prefixed_end(bytes@, decoder@.start as int, count as nat, order) == prefixed_end(
                bytes@,
                pos as int,
                (count - i) as nat,
                order,
            ),
        decreases count - i,
    {
        if bytes.len() - pos < PREFIX_WIDTH {
            assert(!value_at(bytes@, pos as int, order));
            return None;
        }
        let len = read_uint(bytes, pos, PREFIX_WIDTH, order);
        proof {
            lemma_radix_pow_values();
        }
        let data_at: usize = pos + PREFIX_WIDTH;
        if ((bytes.len() - data_at) as u64) < len {
            assert(!value_at(bytes@, pos as int, order));
            return None;
        }
        assert(value_at(bytes@, pos as int, order));
        pos = data_at + len as usize;
        i += 1;
    }
    Some(pos)
}

/// Skips `min(num_values, remaining)` values, reading the length of each:
/// `UnexpectedEof`, and the cursor as it was, where the data end before one
/// of them does.
pub fn prefixed_skip(decoder: &mut PlainDecoderDetails, num_values: usize) -> (result: Result<
    usize,
    CodecError,
>)
    requires
        old(decoder).wf(),
        old(decoder)@.data is Some,
        old(decoder)@.bit_offset == 0,
    ensures
        final(decoder).wf(),
        match prefixed_skipped(
            old(decoder)@,
            at_most(num_values as nat, old(decoder)@.num_values),
        ) {
            Some(cursor) => result == Ok::<usize, CodecError>(
                at_most(num_values as nat, old(decoder)@.num_values) as usize,
            ) && final(decoder)@ == cursor,
            None => result == Err::<usize, CodecError>(CodecError::UnexpectedEof)
                && final(decoder)@ == old(decoder)@,
        },
{
    let count = if num_values <= decoder.num_values() {
        num_values
    } else {
        decoder.num_values()
    };
    match prefixed_scan(decoder, count) {
        Some(end) => {
            let span = end - decoder.start();
            decoder.advance(span, count);
            Ok(count)
        },
        None => Err(CodecError::UnexpectedEof),
    }
}

/// The values that `outcome` holds.
pub open spec fn found(outcome: Option<(Seq<Option<Seq<u8>>>, int)>) -> Seq<Option<Seq<u8>>> {
    match outcome {
        Some((values, _)) => values,
        None => Seq::empty(),
    }
}

/// `values` followed by what `rest` holds.
pub open spec fn after_values(
    values: Seq<Option<Seq<u8>>>,
    rest: Option<(Seq<Option<Seq<u8>>>, int)>,
) -> Option<(Seq<Option<Seq<u8>>>, int)> {
    match rest {
        Some((more, end)) => Some((values + more, end)),
        None => None,
    }
}

/// Decodes `min(buffer.len(), remaining)` values into the front of `buffer`,
/// each sharing the cursor's data: `UnexpectedEof`, with the cursor and the
/// buffer as they were, where the data end before one of the values does.
pub fn prefixed_decode(buffer: &mut [ByteArray], decoder: &mut PlainDecoderDetails) -> (result:
    Result<usize, CodecError>)
    requires
        old(decoder).wf(),
        old(decoder)@.data is Some,
        old(decoder)@.bit_offset == 0,
    ensures
        final(decoder).wf(),
        final(buffer)@.len() == old(buffer)@.len(),
        match prefixed_decoded(
            old(decoder)@,
            at_most(old(buffer)@.len(), old(decoder)@.num_values),
        ) {
            Some((values, cursor)) => {
                &&& result == Ok::<usize, CodecError>(values.len() as usize)
                &&& final(decoder)@ == cursor
                &&& views(final(buffer)@) == values + views(old(buffer)@).skip(values.len() as int)
            },
            None => {
                &&& result == Err::<usize, CodecError>(CodecError::UnexpectedEof)
                &&& final(decoder)@ == old(decoder)@
                &&& final(buffer)@ == old(buffer)@
            },
        },
{
    let count = if buffer.len() <= decoder.num_values() {
        buffer.len()
    } else {
        decoder.num_values()
    };
    proof {
        lemma_prefixed_values_end(
            decoder@.bytes(),
            decoder@.start as int,
            count as nat,
            decoder@.order,
        );
    }
    let end = match prefixed_scan(decoder, count) {
        Some(end) => end,
        None => {
            return Err(CodecError::UnexpectedEof);
        },
    };
    let ghost before = buffer@;
    let ghost all = prefixed_values(
        decoder@.bytes(),
        decoder@.start as int,
        count as nat,
        decoder@.order,
    );
    let bytes = decoder.bytes();
    let order = decoder.byte_order();
    let start = decoder.start();
    let mut pos: usize = start;
    let mut i: usize = 0;
    proof {
        assert(views(buffer@).take(0) + found(all) =~= found(all));
        assert(views(buffer@).take(0) =~= Seq::<Option<Seq<u8>>>::empty());
    }
    while i < count
        invariant
            i <= count <= before.len(),
            buffer@.len() == before.len(),
            bytes@ == decoder@.bytes(),
            decoder@.data is Some,
            start <= pos,
            all is Some,
            all == prefixed_values(bytes@, start as int, count as nat, order),
            all == after_values(
                views(buffer@).take(i as int),
                prefixed_values(bytes@, pos as int, (count - i) as nat, order),
            ),
            forall|j: int| i <= j < before.len() ==> buffer@[j] == before[j],
        decreases count - i,
    {
        let ghost done = views(buffer@).take(i as int);
        proof {
            lemma_prefixed_values_end(bytes@, pos as int, (count - i) as nat, order);
            lemma_prefixed_values_end(
                bytes@,
                pos + 4 + prefix_at(bytes@, pos as int, order),
                (count - i - 1) as nat,
                order,
            );
            lemma_radix_pow_values();
            assert(value_at(bytes@, pos as int, order));
            assert(bytes@.len() == bytes.len());
        }
        let len = read_uint(bytes, pos, PREFIX_WIDTH, order) as usize;
        let data_at: usize = pos + PREFIX_WIDTH;
        let value = ByteArray::from(decoder.share(data_at, data_at + len));
        buffer[i] = value;
        proof {
            let one = seq![Some(bytes@.subrange(data_at as int, data_at + len))];
            let rest = prefixed_values(bytes@, data_at + len, (count - i - 1) as nat, order);
            assert(views(buffer@).take(i + 1) =~= done + one);
            assert((done + one) + found(rest) =~= done + (one + found(rest)));
        }
        pos = data_at + len;
        i += 1;
    }
    proof {
        assert(views(buffer@).take(count as int) + Seq::<Option<Seq<u8>>>::empty() =~= views(
            buffer@,
        ).take(count as int));
        assert(views(buffer@) =~= found(all) + views(before).skip(count as int));
    }
    decoder.advance(end - start, count);
    Ok(count)
}

/// Reading the values that were encoded after `head` yields these values
/// and ends where the bytes end.
proof fn lemma_prefixed_values_of_bytes(
    head: Seq<u8>,
    values: Seq<Option<Seq<u8>>>,
    order: ByteOrder,
)
    requires
        forall|i: int| 0 <= i < values.len() ==> prefixable(#[trigger] values[i]),
    ensures
        prefixed_values(
            head + prefixed_bytes(values, order),
            head.len() as int,
            values.len(),
            order,
        ) == Some((values, (head + prefixed_bytes(values, order)).len() as int)),
    decreases values.len(),
{
    let bytes = head + prefixed_bytes(values, order);
    let pos = head.len() as int;
    if values.len() == 0 {
        assert(found(prefixed_values(bytes, pos, 0, order)) =~= values);
    } else {
        let first = values.first();
        let rest = values.drop_first();
        let len = first->0.len();
        let prefix = uint_bytes(len, 4, order);
        let one = prefixed_one(first, order);
        let tail = prefixed_bytes(rest, order);
        let longer = head + one;
        assert(prefixable(first));
        assert(uint_value(prefix, order) == len && prefix.len() == 4) by {
            lemma_radix_pow_values();
            lemma_uint_round_trip(len, 4, order);
        }
        assert(one.len() == 4 + len);
        assert(bytes == longer + tail) by {
            assert(prefixed_bytes(values, order) == one + tail);
            assert(head + (one + tail) =~= (head + one) + tail);
        }
        assert(bytes.subrange(pos, pos + 4) == prefix) by {
            assert(bytes.subrange(pos, pos + 4) =~= prefix);
        }
        assert(bytes.subrange(pos + 4, pos + 4 + len) == first->0) by {
            assert(bytes.subrange(pos + 4, pos + 4 + len) =~= first->0);
        }
        assert forall|i: int| 0 <= i < rest.len() implies prefixable(#[trigger] rest[i]) by {
            assert(rest[i] == values[i + 1]);
        }
        lemma_prefixed_values_of_bytes(longer, rest, order);
        assert(value_at(bytes, pos, order));
        assert(prefix_at(bytes, pos, order) == len);
        assert(prefixed_values(bytes, pos + 4 + len, rest.len(), order) == Some(
            (rest, bytes.len() as int),
        ));
        assert(seq![first] + rest =~= values);
    }
}

/// Decoding what was encoded yields the values that were encoded: a cursor
/// at the beginning of the encoding of byte arrays that can be encoded, with
/// at least as many values to come, decodes to these values and ends where
/// the encoding ends.
pub proof fn lemma_prefixed_round_trip(values: Seq<Option<Seq<u8>>>, cursor: CursorView)
    requires
        forall|i: int| 0 <= i < values.len() ==> prefixable(#[trigger] values[i]),
        cursor.data == Some(prefixed_bytes(values, cursor.order)),
        cursor.start == 0,
        cursor.num_values >= values.len(),
    ensures
        prefixed_decoded(cursor, values.len()) == Some(
            (values, cursor.advanced(prefixed_bytes(values, cursor.order).len(), values.len())),
        ),
{
    let bytes = prefixed_bytes(values, cursor.order);
    lemma_prefixed_values_of_bytes(Seq::empty(), values, cursor.order);
    assert(Seq::<u8>::empty() + bytes =~= bytes);
}

} // verus!
