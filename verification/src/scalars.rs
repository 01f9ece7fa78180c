//! The fixed-width values: 32-bit and 64-bit integers, the bit patterns of
//! single and double precision numbers, and the 96-bit timestamp.

use crate::byte_order::{
    ByteOrder, bits_of_i32, bits_of_i64, i32_of_bits, i64_of_bits, lemma_radix_pow_values,
    lemma_signed_round_trip, lemma_uint_round_trip, read_uint, to_signed, to_unsigned, uint_bytes,
    uint_value, write_uint,
};
use crate::fixed_width::FixedWidth;
use crate::int96::Int96;
use vstd::prelude::*;

verus! {

/// A single precision number, held as its 32 bits. Nothing is done to the
/// bits: every pattern, each kind of not-a-number too, is kept as it is.
#[derive(Clone, Copy, Debug, Default, PartialEq, Eq, Structural)]
pub struct FloatBits(pub u32);

/// A double precision number, held as its 64 bits. Nothing is done to the
/// bits: every pattern, each kind of not-a-number too, is kept as it is.
#[derive(Clone, Copy, Debug, Default, PartialEq, Eq, Structural)]
pub struct DoubleBits(pub u64);

impl View for FloatBits {
    type V = u32;

    open spec fn view(&self) -> u32 {
        self.0
    }
}

impl View for DoubleBits {
    type V = u64;

    open spec fn view(&self) -> u64 {
        self.0
    }
}

impl FixedWidth for i32 {
    open spec fn width() -> nat {
        4
    }

    open spec fn valid(value: i32) -> bool {
        true
    }

    open spec fn wire(value: i32, order: ByteOrder) -> Seq<u8> {
        uint_bytes(to_unsigned(value as int, 4), 4, order)
    }

    open spec fn unwire(bytes: Seq<u8>, order: ByteOrder) -> i32 {
        to_signed(uint_value(bytes, order), 4) as i32
    }

    proof fn lemma_wire(value: i32, order: ByteOrder) {
        lemma_radix_pow_values();
        lemma_signed_round_trip(value as int, 4);
        lemma_uint_round_trip(to_unsigned(value as int, 4), 4, order);
    }

    fn encoded_width() -> (width: usize) {
        4
    }

    fn write(&self, order: ByteOrder, out: &mut Vec<u8>) {
        proof {
            lemma_radix_pow_values();
        }
        write_uint(bits_of_i32(*self) as u64, 4, order, out);
    }

    fn read(bytes: &[u8], pos: usize, order: ByteOrder) -> (value: i32) {
        proof {
            lemma_radix_pow_values();
        }
        i32_of_bits(read_uint(bytes, pos, 4, order) as u32)
    }
}

impl FixedWidth for i64 {
    open spec fn width() -> nat {
        8
    }

    open spec fn valid(value: i64) -> bool {
        true
    }

    open spec fn wire(value: i64, order: ByteOrder) -> Seq<u8> {
        uint_bytes(to_unsigned(value as int, 8), 8, order)
    }

    open spec fn unwire(bytes: Seq<u8>, order: ByteOrder) -> i64 {
        to_signed(uint_value(bytes, order), 8) as i64
    }

    proof fn lemma_wire(value: i64, order: ByteOrder) {
        lemma_radix_pow_values();
        lemma_signed_round_trip(value as int, 8);
        lemma_uint_round_trip(to_unsigned(value as int, 8), 8, order);
    }

    fn encoded_width() -> (width: usize) {
        8
    }

    fn write(&self, order: ByteOrder, out: &mut Vec<u8>) {
        proof {
            lemma_radix_pow_values();
        }
        write_uint(bits_of_i64(*self), 8, order, out);
    }

    fn read(bytes: &[u8], pos: usize, order: ByteOrder) -> (value: i64) {
        proof {
            lemma_radix_pow_values();
        }
        i64_of_bits(read_uint(bytes, pos, 8, order))
    }
}

impl FixedWidth for FloatBits {
    open spec fn width() -> nat {
        4
    }

    open spec fn valid(value: u32) -> bool {
        true
    }

    open spec fn wire(value: u32, order: ByteOrder) -> Seq<u8> {
        uint_bytes(value as nat, 4, order)
    }

    open spec fn unwire(bytes: Seq<u8>, order: ByteOrder) -> u32 {
        uint_value(bytes, order) as u32
    }

    proof fn lemma_wire(value: u32, order: ByteOrder) {
        lemma_radix_pow_values();
        lemma_uint_round_trip(value as nat, 4, order);
    }

    fn encoded_width() -> (width: usize) {
        4
    }

    fn write(&self, order: ByteOrder, out: &mut Vec<u8>) {
        proof {
            lemma_radix_pow_values();
        }
        write_uint(self.0 as u64, 4, order, out);
    }

    fn read(bytes: &[u8], pos: usize, order: ByteOrder) -> (value: FloatBits) {
        proof {
            lemma_radix_pow_values();
        }
        FloatBits(read_uint(bytes, pos, 4, order) as u32)
    }
}

impl FixedWidth for DoubleBits {
    open spec fn width() -> nat {
        8
    }

    open spec fn valid(value: u64) -> bool {
        true
    }

    open spec fn wire(value: u64, order: ByteOrder) -> Seq<u8> {
        uint_bytes(value as nat, 8, order)
    }

    open spec fn unwire(bytes: Seq<u8>, order: ByteOrder) -> u64 {
        uint_value(bytes, order) as u64
    }

    proof fn lemma_wire(value: u64, order: ByteOrder) {
        lemma_radix_pow_values();
        lemma_uint_round_trip(value as nat, 8, order);
    }

    fn encoded_width() -> (width: usize) {
        8
    }

    fn write(&self, order: ByteOrder, out: &mut Vec<u8>) {
        proof {
            lemma_radix_pow_values();
        }
        write_uint(self.0, 8, order, out);
    }

    fn read(bytes: &[u8], pos: usize, order: ByteOrder) -> (value: DoubleBits) {
        proof {
            lemma_radix_pow_values();
        }
        DoubleBits(read_uint(bytes, pos, 8, order))
    }
}

/// The twelve bytes of three words: each word least significant byte first,
/// word 0 first.
pub open spec fn words_bytes(words: Seq<u32>) -> Seq<u8> {
    uint_bytes(words[0] as nat, 4, ByteOrder::Little) + uint_bytes(
        words[1] as nat,
        4,
        ByteOrder::Little,
    ) + uint_bytes(words[2] as nat, 4, ByteOrder::Little)
}

/// The three words that twelve bytes hold.
pub open spec fn bytes_words(bytes: Seq<u8>) -> Seq<u32> {
    seq![
        uint_value(bytes.subrange(0, 4), ByteOrder::Little) as u32,
        uint_value(bytes.subrange(4, 8), ByteOrder::Little) as u32,
        uint_value(bytes.subrange(8, 12), ByteOrder::Little) as u32,
    ]
}

impl FixedWidth for Int96 {
    open spec fn width() -> nat {
        12
    }

    open spec fn valid(value: Seq<u32>) -> bool {
        value.len() == 3
    }

    open spec fn wire(value: Seq<u32>, order: ByteOrder) -> Seq<u8> {
        words_bytes(value)
    }

    open spec fn unwire(bytes: Seq<u8>, order: ByteOrder) -> Seq<u32> {
        bytes_words(bytes)
    }

    proof fn lemma_wire(value: Seq<u32>, order: ByteOrder) {
        lemma_radix_pow_values();
        let little = ByteOrder::Little;
        lemma_uint_round_trip(value[0] as nat, 4, little);
        lemma_uint_round_trip(value[1] as nat, 4, little);
        lemma_uint_round_trip(value[2] as nat, 4, little);
        let bytes = words_bytes(value);
        assert(bytes.subrange(0, 4) =~= uint_bytes(value[0] as nat, 4, little));
        assert(bytes.subrange(4, 8) =~= uint_bytes(value[1] as nat, 4, little));
        assert(bytes.subrange(8, 12) =~= uint_bytes(value[2] as nat, 4, little));
        assert(bytes_words(bytes) =~= value);
    }

    fn encoded_width() -> (width: usize) {
        12
    }

    fn write(&self, order: ByteOrder, out: &mut Vec<u8>) {
        proof {
            lemma_radix_pow_values();
            self.lemma_three_words();
        }
        let words = self.data();
        let ghost before = out@;
        let word0 = words[0];
        let word1 = words[1];
        let word2 = words[2];
        write_uint(word0 as u64, 4, ByteOrder::Little, out);
        let ghost after0 = out@;
        write_uint(word1 as u64, 4, ByteOrder::Little, out);
        let ghost after1 = out@;
        write_uint(word2 as u64, 4, ByteOrder::Little, out);
        proof {
            let little = ByteOrder::Little;
            assert(word0 == self@[0] && word1 == self@[1] && word2 == self@[2]);
            assert(after0 == before + uint_bytes(word0 as nat, 4, little));
            assert(after1 == after0 + uint_bytes(word1 as nat, 4, little));
            assert(out@ == after1 + uint_bytes(word2 as nat, 4, little));
            assert(out@ =~= before + (uint_bytes(word0 as nat, 4, little) + uint_bytes(
                word1 as nat,
                4,
                little,
            ) + uint_bytes(word2 as nat, 4, little)));
            assert(self@.len() == 3);
            assert(<Int96 as FixedWidth>::valid(self@));
            assert(out@ == before + <Int96 as FixedWidth>::wire(self@, order));
        }
    }

    fn read(bytes: &[u8], pos: usize, order: ByteOrder) -> (value: Int96) {
        proof {
            lemma_radix_pow_values();
        }
        let ghost part = bytes@.subrange(pos as int, pos + 12);
        let elem0 = read_uint(bytes, pos, 4, ByteOrder::Little) as u32;
        let elem1 = read_uint(bytes, pos + 4, 4, ByteOrder::Little) as u32;
        let elem2 = read_uint(bytes, pos + 8, 4, ByteOrder::Little) as u32;
        proof {
            assert(part.subrange(0, 4) =~= bytes@.subrange(pos as int, pos + 4));
            assert(part.subrange(4, 8) =~= bytes@.subrange(pos + 4, pos + 8));
            assert(part.subrange(8, 12) =~= bytes@.subrange(pos + 8, pos + 12));
        }
        let mut value = Int96::new();
        value.set_data(elem0, elem1, elem2);
        value
    }
}

} // verus!
