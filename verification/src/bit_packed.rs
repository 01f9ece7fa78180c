//! The PLAIN codec of booleans: one bit for each value, the least
//! significant bit of each byte first.

use crate::cursor::{CursorView, PlainDecoderDetails};
use crate::errors::CodecError;
use crate::fixed_width::at_most;
use vstd::prelude::*;

verus! {

/// Bit `k` of `byte`, counted from the least significant.
pub open spec fn bit_of(byte: u8, k: u8) -> bool {
    (byte >> k) & 1 == 1
}

/// The byte that has `bit` as its bit `k` and no other bit.
pub open spec fn weight(bit: bool, k: u8) -> u8 {
    if bit {
        1u8 << k
    } else {
        0u8
    }
}

/// The byte whose bits, from the least significant, are `b0` to `b7`.
pub open spec fn byte_of_bits(
    b0: bool,
    b1: bool,
    b2: bool,
    b3: bool,
    b4: bool,
    b5: bool,
    b6: bool,
    b7: bool,
) -> u8 {
    weight(b0, 0) | weight(b1, 1) | weight(b2, 2) | weight(b3, 3) | weight(b4, 4) | weight(b5, 5)
        | weight(b6, 6) | weight(b7, 7)
}

/// Bit `index` of `bytes`, where byte `i` holds the bits `8 * i` to `8 * i + 7`.
pub open spec fn bit_at(bytes: Seq<u8>, index: int) -> bool {
    bit_of(bytes[index / 8], (index % 8) as u8)
}

/// The bit at `index` of `bits`, and `false` beyond their end.
pub open spec fn bit_or_zero(bits: Seq<bool>, index: int) -> bool {
    0 <= index < bits.len() && bits[index]
}

/// Byte `j` of the packing of `bits`.
pub open spec fn packed_byte(bits: Seq<bool>, j: int) -> u8 {
    byte_of_bits(
        bit_or_zero(bits, 8 * j),
        bit_or_zero(bits, 8 * j + 1),
        bit_or_zero(bits, 8 * j + 2),
        bit_or_zero(bits, 8 * j + 3),
        bit_or_zero(bits, 8 * j + 4),
        bit_or_zero(bits, 8 * j + 5),
        bit_or_zero(bits, 8 * j + 6),
        bit_or_zero(bits, 8 * j + 7),
    )
}

/// The bytes that hold `bits`, eight to a byte; the last byte is filled up
/// with zero bits.
pub open spec fn packed(bits: Seq<bool>) -> Seq<u8> {
    Seq::new(((bits.len() + 7) / 8) as nat, |j: int| packed_byte(bits, j))
}

/// All the bits of `bytes`.
pub open spec fn unpacked(bytes: Seq<u8>) -> Seq<bool> {
    Seq::new(8 * bytes.len(), |i: int| bit_at(bytes, i))
}

/// The `used` least significant bits of `byte`.
pub open spec fn low_bits(byte: u8, used: u8) -> Seq<bool> {
    Seq::new(used as nat, |k: int| bit_of(byte, k as u8))
}

/// Each bit of a byte made of eight bits is the bit it was made of.
pub proof fn lemma_bits_of_byte(
    b0: bool,
    b1: bool,
    b2: bool,
    b3: bool,
    b4: bool,
    b5: bool,
    b6: bool,
    b7: bool,
)
    ensures
        bit_of(byte_of_bits(b0, b1, b2, b3, b4, b5, b6, b7), 0) == b0,
        bit_of(byte_of_bits(b0, b1, b2, b3, b4, b5, b6, b7), 1) == b1,
        bit_of(byte_of_bits(b0, b1, b2, b3, b4, b5, b6, b7), 2) == b2,
        bit_of(byte_of_bits(b0, b1, b2, b3, b4, b5, b6, b7), 3) == b3,
        bit_of(byte_of_bits(b0, b1, b2, b3, b4, b5, b6, b7), 4) == b4,
        bit_of(byte_of_bits(b0, b1, b2, b3, b4, b5, b6, b7), 5) == b5,
        bit_of(byte_of_bits(b0, b1, b2, b3, b4, b5, b6, b7), 6) == b6,
        bit_of(byte_of_bits(b0, b1, b2, b3, b4, b5, b6, b7), 7) == b7,
{
    assert(1u8 << 0u8 == 1 && 1u8 << 1u8 == 2 && 1u8 << 2u8 == 4 && 1u8 << 3u8 == 8 && 1u8 << 4u8
        == 16 && 1u8 << 5u8 == 32 && 1u8 << 6u8 == 64 && 1u8 << 7u8 == 128) by (bit_vector);
    let w0 = weight(b0, 0);
    let w1 = weight(b1, 1);
    let w2 = weight(b2, 2);
    let w3 = weight(b3, 3);
    let w4 = weight(b4, 4);
    let w5 = weight(b5, 5);
    let w6 = weight(b6, 6);
    let w7 = weight(b7, 7);
    let byte = w0 | w1 | w2 | w3 | w4 | w5 | w6 | w7;
    assert(((byte >> 0u8) & 1 == 1) == (w0 == 1) && ((byte >> 1u8) & 1 == 1) == (w1 == 2) && ((byte
        >> 2u8) & 1 == 1) == (w2 == 4) && ((byte >> 3u8) & 1 == 1) == (w3 == 8) && ((byte >> 4u8)
        & 1 == 1) == (w4 == 16) && ((byte >> 5u8) & 1 == 1) == (w5 == 32) && ((byte >> 6u8) & 1
        == 1) == (w6 == 64) && ((byte >> 7u8) & 1 == 1) == (w7 == 128)) by (bit_vector)
        requires
            byte == w0 | w1 | w2 | w3 | w4 | w5 | w6 | w7,
            w0 == 0 || w0 == 1,
            w1 == 0 || w1 == 2,
            w2 == 0 || w2 == 4,
            w3 == 0 || w3 == 8,
            w4 == 0 || w4 == 16,
            w5 == 0 || w5 == 32,
            w6 == 0 || w6 == 64,
            w7 == 0 || w7 == 128,
    ;
}

/// A byte is made of its eight bits.
pub proof fn lemma_byte_of_its_bits(byte: u8)
    ensures
        byte_of_bits(
            bit_of(byte, 0),
            bit_of(byte, 1),
            bit_of(byte, 2),
            bit_of(byte, 3),
            bit_of(byte, 4),
            bit_of(byte, 5),
            bit_of(byte, 6),
            bit_of(byte, 7),
        ) == byte,
{
    assert(1u8 << 0u8 == 1 && 1u8 << 1u8 == 2 && 1u8 << 2u8 == 4 && 1u8 << 3u8 == 8 && 1u8 << 4u8
        == 16 && 1u8 << 5u8 == 32 && 1u8 << 6u8 == 64 && 1u8 << 7u8 == 128) by (bit_vector);
    let w0 = weight(bit_of(byte, 0), 0);
    let w1 = weight(bit_of(byte, 1), 1);
    let w2 = weight(bit_of(byte, 2), 2);
    let w3 = weight(bit_of(byte, 3), 3);
    let w4 = weight(bit_of(byte, 4), 4);
    let w5 = weight(bit_of(byte, 5), 5);
    let w6 = weight(bit_of(byte, 6), 6);
    let w7 = weight(bit_of(byte, 7), 7);
    assert(w0 | w1 | w2 | w3 | w4 | w5 | w6 | w7 == byte) by (bit_vector)
        requires
            w0 == (if (byte >> 0u8) & 1 == 1 { 1u8 } else { 0u8 }),
            w1 == (if (byte >> 1u8) & 1 == 1 { 2u8 } else { 0u8 }),
            w2 == (if (byte >> 2u8) & 1 == 1 { 4u8 } else { 0u8 }),
            w3 == (if (byte >> 3u8) & 1 == 1 { 8u8 } else { 0u8 }),
            w4 == (if (byte >> 4u8) & 1 == 1 { 16u8 } else { 0u8 }),
            w5 == (if (byte >> 5u8) & 1 == 1 { 32u8 } else { 0u8 }),
            w6 == (if (byte >> 6u8) & 1 == 1 { 64u8 } else { 0u8 }),
            w7 == (if (byte >> 7u8) & 1 == 1 { 128u8 } else { 0u8 }),
    ;
}

/// Setting bit `used` of a byte that has no bit from `used` on leaves the
/// bits below as they were and no bit above.
pub proof fn lemma_put_bit(byte: u8, used: u8, bit: bool, k: u8)
    requires
        used < 8,
        k < 8,
        byte >> used == 0,
    ensures
        bit_of(byte | weight(bit, used), k) == if k == used {
            bit
        } else {
            bit_of(byte, k)
        },
        k >= used ==> !bit_of(byte, k),
        used < 7 ==> (byte | weight(bit, used)) >> ((used + 1) as u8) == 0,
{
    let w = weight(bit, used);
    assert(w == 0 || w == 1u8 << used);
    assert((((byte | w) >> k) & 1 == 1) == (if k == used {
        w != 0
    } else {
        (byte >> k) & 1 == 1
    }) && (k >= used ==> (byte >> k) & 1 == 0) && (used < 7 ==> (byte | w) >> ((used + 1) as u8)
        == 0) && (1u8 << used != 0)) by (bit_vector)
        requires
            used < 8,
            k < 8,
            byte >> used == 0,
            w == 0 || w == 1u8 << used,
    ;
}

/// Bit `k` of byte `j` of what a writer holds, with `full` as its whole bytes
/// and the `used` low bits of `current` pending, is that bit of the byte.
proof fn lemma_written_bit(full: Seq<u8>, current: u8, used: u8, j: int, k: u8)
    requires
        used < 8,
        current >> used == 0,
        k < 8,
        0 <= j < full.len() || (j == full.len() && used > 0),
    ensures
        bit_or_zero(unpacked(full) + low_bits(current, used), 8 * j + k) == bit_of(
            if j < full.len() {
                full[j]
            } else {
                current
            },
            k,
        ),
{
    let bits = unpacked(full) + low_bits(current, used);
    if j < full.len() {
        assert((8 * j + k) / 8 == j);
        assert((8 * j + k) % 8 == k);
        assert(bits[8 * j + k] == bit_at(full, 8 * j + k));
    } else {
        lemma_put_bit(current, used, false, k);
        if k < used {
            assert(bits[8 * j + k] == low_bits(current, used)[k as int]);
        }
    }
}

/// Collects bits, eight to a byte, the least significant bit of each byte
/// first.
#[derive(Debug)]
pub struct BitWriter {
    buffer: Vec<u8>,
    current: u8,
    used: u8,
}

impl View for BitWriter {
    type V = Seq<bool>;

    closed spec fn view(&self) -> Seq<bool> {
        unpacked(self.buffer@) + low_bits(self.current, self.used)
    }
}

impl BitWriter {
    /// Fewer than eight bits are pending, and the pending byte has no others.
    pub closed spec fn wf(&self) -> bool {
        self.used < 8 && self.current >> self.used == 0
    }

    /// A writer that holds no bits.
    pub fn new() -> (writer: Self)
        ensures
            writer.wf(),
            writer@ == Seq::<bool>::empty(),
    {
        assert(0u8 >> 0u8 == 0) by (bit_vector);
        let writer = BitWriter { buffer: Vec::new(), current: 0, used: 0 };
        assert(writer@ =~= Seq::<bool>::empty());
        writer
    }

    /// The number of whole bytes that the bits written fill.
    pub fn bytes_written(&self) -> (count: usize)
        requires
            self.wf(),
        ensures
            count == self@.len() / 8,
    {
        self.buffer.len()
    }

    /// Adds one bit.
    pub fn put_bit(&mut self, bit: bool)
        requires
            old(self).wf(),
        ensures
            final(self).wf(),
            final(self)@ == old(self)@.push(bit),
    {
        let ghost before = self@;
        let ghost full = self.buffer@;
        let current = self.current;
        let used = self.used;
        let added: u8 = if bit {
            1u8 << used
        } else {
            0u8
        };
        let next: u8 = current | added;
        proof {
            assert forall|k: u8| k < 8 implies bit_of(next, k) == (if k == used {
                bit
            } else {
                bit_of(current, k)
            }) by {
                lemma_put_bit(current, used, bit, k);
            }
            lemma_put_bit(current, used, bit, 0);
            assert(0u8 >> used == 0) by (bit_vector);
        }
        if used == 7 {
            self.buffer.push(next);
            self.current = 0;
            self.used = 0;
            proof {
                assert(0u8 >> 0u8 == 0) by (bit_vector);
                assert forall|i: int| 0 <= i < before.len() + 1 implies self@[i] == before.push(
                    bit,
                )[i] by {
                    if i >= 8 * full.len() {
                        let k = (i - 8 * full.len()) as u8;
                        assert(i / 8 == full.len());
                        assert(i % 8 == k);
                        assert(bit_of(next, k) == (if k == used {
                            bit
                        } else {
                            bit_of(current, k)
                        }));
                    } else {
                        assert(self.buffer@[i / 8] == full[i / 8]);
                    }
                }
                assert(self@ =~= before.push(bit));
            }
        } else {
            self.used = used + 1;
            self.current = next;
            proof {
                assert forall|i: int| 0 <= i < before.len() + 1 implies self@[i] == before.push(
                    bit,
                )[i] by {
                    if i >= 8 * full.len() {
                        let k = (i - 8 * full.len()) as u8;
                        assert(bit_of(next, k) == (if k == used {
                            bit
                        } else {
                            bit_of(current, k)
                        }));
                    }
                }
                assert(self@ =~= before.push(bit));
            }
        }
    }

    /// The bytes that hold the bits written; the last byte is filled up with
    /// zero bits.
    pub fn consume(self) -> (bytes: Vec<u8>)
        requires
            self.wf(),
        ensures
            bytes@ == packed(self@),
    {
        let ghost bits = self@;
        let ghost full = self.buffer@;
        let current = self.current;
        let used = self.used;
        let mut bytes = self.buffer;
        if used > 0 {
            bytes.push(current);
        }
        proof {
            assert forall|j: int| 0 <= j < bytes@.len() implies bytes@[j] == packed_byte(
                bits,
                j,
            ) by {
                lemma_byte_of_its_bits(bytes@[j]);
                lemma_written_bit(full, current, used, j, 0);
                lemma_written_bit(full, current, used, j, 1);
                lemma_written_bit(full, current, used, j, 2);
                lemma_written_bit(full, current, used, j, 3);
                lemma_written_bit(full, current, used, j, 4);
                lemma_written_bit(full, current, used, j, 5);
                lemma_written_bit(full, current, used, j, 6);
                lemma_written_bit(full, current, used, j, 7);
            }
            assert(bytes@ =~= packed(bits));
        }
        bytes
    }
}

/// The `count` bits of `bytes` from bit `first` on.
pub open spec fn bit_values(bytes: Seq<u8>, first: int, count: nat) -> Seq<bool> {
    Seq::new(count, |i: int| bit_at(bytes, first + i))
}

/// The cursor after skipping `count` booleans; `None` where it holds fewer bits.
pub open spec fn bits_skipped(cursor: CursorView, count: nat) -> Option<CursorView> {
    if count <= cursor.bits_left() {
        Some(cursor.advanced_bits(count))
    } else {
        None
    }
}

/// The next `count` booleans and the cursor after them; `None` where the
/// cursor holds fewer bits.
pub open spec fn bits_decoded(cursor: CursorView, count: nat) -> Option<(Seq<bool>, CursorView)> {
    if count <= cursor.bits_left() {
        Some(
            (
                bit_values(cursor.bytes(), (8 * cursor.start + cursor.bit_offset) as int, count),
                cursor.advanced_bits(count),
            ),
        )
    } else {
        None
    }
}

/// Adds each of `values` to the writer as one bit.
pub fn bits_encode(values: &[bool], bit_writer: &mut BitWriter)
    requires
        old(bit_writer).wf(),
    ensures
        final(bit_writer).wf(),
        final(bit_writer)@ == old(bit_writer)@ + values@,
{
    let ghost before = bit_writer@;
    let mut i: usize = 0;
    proof {
        assert(before + values@.take(0) =~= before);
    }
    while i < values.len()
        invariant
            i <= values.len(),
            bit_writer.wf(),
            bit_writer@ == before + values@.take(i as int),
        decreases values.len() - i,
    {
        bit_writer.put_bit(values[i]);
        assert(bit_writer@ =~= before + values@.take(i + 1));
        i += 1;
    }
    assert(values@.take(values@.len() as int) =~= values@);
}

/// Whether the cursor holds `count` more bits.
fn bits_suffice(decoder: &PlainDecoderDetails, count: usize) -> (enough: bool)
    requires
        decoder.wf(),
    ensures
        enough == (count <= decoder@.bits_left()),
{
    let bytes_left = decoder.bytes().len() - decoder.start();
    let bytes_needed = count / 8 + (decoder.bit_offset() + count % 8 + 7) / 8;
    bytes_needed <= bytes_left
}

/// Skips `min(num_values, remaining)` booleans: `UnexpectedEof`, and the
/// cursor as it was, where the cursor holds fewer bits.
pub fn bits_skip(decoder: &mut PlainDecoderDetails, num_values: usize) -> (result: Result<
    usize,
    CodecError,
>)
    requires
        old(decoder).wf(),
        old(decoder)@.data is Some,
    ensures
        final(decoder).wf(),
        match bits_skipped(old(decoder)@, at_most(num_values as nat, old(decoder)@.num_values)) {
            Some(cursor) => result == Ok::<usize, CodecError>(
                at_most(num_values as nat, old(decoder)@.num_values) as usize,
            ) && final(decoder)@ == cursor,
            None => result == Err::<usize, CodecError>(CodecError::UnexpectedEof)
                && final(decoder)@ == old(decoder)@,
        },
{
    let count = if num_values <= decoder.num_values() {
        num_values
    } else {
        decoder.num_values()
    };
    if bits_suffice(decoder, count) {
        decoder.advance_bits(count);
        Ok(count)
    } else {
        Err(CodecError::UnexpectedEof)
    }
}

/// Decodes `min(buffer.len(), remaining)` booleans into the front of
/// `buffer`: `UnexpectedEof`, with the cursor and the buffer as they were,
/// where the cursor holds fewer bits.
pub fn bits_decode(buffer: &mut [bool], decoder: &mut PlainDecoderDetails) -> (result: Result<
    usize,
    CodecError,
>)
    requires
        old(decoder).wf(),
        old(decoder)@.data is Some,
    ensures
        final(decoder).wf(),
        final(buffer)@.len() == old(buffer)@.len(),
        match bits_decoded(old(decoder)@, at_most(old(buffer)@.len(), old(decoder)@.num_values)) {
            Some((values, cursor)) => {
                &&& result == Ok::<usize, CodecError>(values.len() as usize)
                &&& final(decoder)@ == cursor
                &&& final(buffer)@ == values + old(buffer)@.skip(values.len() as int)
            },
            None => {
                &&& result == Err::<usize, CodecError>(CodecError::UnexpectedEof)
                &&& final(decoder)@ == old(decoder)@
                &&& final(buffer)@ == old(buffer)@
            },
        },
{
    let count = if buffer.len() <= decoder.num_values() {
        buffer.len()
    } else {
        decoder.num_values()
    };
    if !bits_suffice(decoder, count) {
        return Err(CodecError::UnexpectedEof);
    }
    let ghost before = buffer@;
    let ghost first: int = (8 * decoder@.start + decoder@.bit_offset) as int;
    let bytes = decoder.bytes();
    let ghost values = bit_values(bytes@, first, count as nat);
    let mut pos: usize = decoder.start();
    let mut offset: usize = decoder.bit_offset();
    let mut i: usize = 0;
    while i < count
        invariant
            i <= count <= before.len(),
            buffer@.len() == before.len(),
            offset < 8,
            pos <= bytes.len(),
            8 * pos + offset == first + i,
            first + count <= 8 * bytes.len(),
            values == bit_values(bytes@, first, count as nat),
            forall|j: int| 0 <= j < i ==> buffer@[j] == values[j],
            forall|j: int| i <= j < before.len() ==> buffer@[j] == before[j],
        decreases count - i,
    {
        let byte = bytes[pos];
        let bit = (byte >> (offset as u8)) & 1 == 1;
        proof {
            assert((first + i) / 8 == pos);
            assert((first + i) % 8 == offset);
            assert(values[i as int] == bit_at(bytes@, first + i));
        }
        buffer[i] = bit;
        offset += 1;
        if offset == 8 {
            offset = 0;
            pos += 1;
        }
        i += 1;
    }
    proof {
        assert(buffer@ =~= values + before.skip(count as int));
    }
    decoder.advance_bits(count);
    Ok(count)
}

/// Skipping and decoding succeed on the same cursors and leave the same cursor.
pub proof fn lemma_bits_skip_as_decode(cursor: CursorView, count: nat)
    ensures
        bits_skipped(cursor, count) == match bits_decoded(cursor, count) {
            Some((_, next)) => Some(next),
            None => None,
        },
{
}

/// Each bit of the packing of `bits` is the bit it was made of.
pub proof fn lemma_bit_of_packed(bits: Seq<bool>, index: int)
    requires
        0 <= index < bits.len(),
    ensures
        index / 8 < packed(bits).len(),
        bit_at(packed(bits), index) == bits[index],
{
    let j = index / 8;
    lemma_bits_of_byte(
        bit_or_zero(bits, 8 * j),
        bit_or_zero(bits, 8 * j + 1),
        bit_or_zero(bits, 8 * j + 2),
        bit_or_zero(bits, 8 * j + 3),
        bit_or_zero(bits, 8 * j + 4),
        bit_or_zero(bits, 8 * j + 5),
        bit_or_zero(bits, 8 * j + 6),
        bit_or_zero(bits, 8 * j + 7),
    );
    assert(packed(bits)[j] == packed_byte(bits, j));
}

/// Decoding what was encoded yields the values that were encoded: a cursor
/// at the beginning of the packing of booleans, with at least as many values
/// to come, decodes to these booleans.
pub proof fn lemma_bits_round_trip(values: Seq<bool>, cursor: CursorView)
    requires
        cursor.data == Some(packed(values)),
        cursor.start == 0,
        cursor.bit_offset == 0,
        cursor.num_values >= values.len(),
    ensures
        bits_decoded(cursor, values.len()) == Some((values, cursor.advanced_bits(values.len()))),
{
    let decoded = bit_values(packed(values), 0, values.len());
    assert forall|i: int| 0 <= i < values.len() implies decoded[i] == values[i] by {
        lemma_bit_of_packed(values, i);
    }
    assert(decoded =~= values);
}

} // verus!
