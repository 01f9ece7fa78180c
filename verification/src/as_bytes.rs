//! Values as the bytes they occupy in memory.

use crate::byte_array::{ByteArray, FixedLenByteArray};
use crate::byte_order::{
    ByteOrder, bits_of_i64, lemma_radix_pow_values, native_byte_order, to_unsigned, uint_bytes,
    write_uint,
};
use crate::decimal::Decimal;
use crate::fixed_width::FixedWidth;
use crate::int96::Int96;
use crate::length_prefixed::append_bytes;
use crate::scalars::{DoubleBits, FloatBits, words_bytes};
use vstd::prelude::*;
use vstd::string::StringSliceAdditionalSpecFns;

verus! {

/// A value that has bytes.
pub trait AsBytes {
    /// Whether the value has bytes at all: a byte array without data has none.
    spec fn has_bytes(&self) -> bool;

    /// The bytes of the value on a machine of the given byte order.
    spec fn bytes_in(&self, order: ByteOrder) -> Seq<u8>;

    /// The bytes of the value on a machine of the given byte order.
    fn as_bytes_in(&self, order: ByteOrder) -> (bytes: Vec<u8>)
        requires
            self.has_bytes(),
        ensures
            bytes@ == self.bytes_in(order),
    ;

    /// The bytes of the value on this machine, whose byte order is one of
    /// the two.
    fn as_bytes(&self) -> (bytes: Vec<u8>)
        requires
            self.has_bytes(),
        ensures
            bytes@ == self.bytes_in(ByteOrder::Little) || bytes@ == self.bytes_in(ByteOrder::Big),
    {
        let order = native_byte_order();
        self.as_bytes_in(order)
    }
}

/// The bytes of `values`, one value after the other.
pub open spec fn joined_bytes<T: AsBytes>(values: Seq<T>, order: ByteOrder) -> Seq<u8>
    decreases values.len(),
{
    if values.len() == 0 {
        Seq::empty()
    } else {
        joined_bytes(values.drop_last(), order) + values.last().bytes_in(order)
    }
}

/// A value whose slices are laid out in memory value by value.
pub trait SliceAsBytes: Sized + AsBytes {
    /// The bytes of `values` on a machine of the given byte order.
    fn slice_as_bytes_in(values: &[Self], order: ByteOrder) -> (bytes: Vec<u8>)
        requires
            forall|i: int| 0 <= i < values@.len() ==> (#[trigger] values@[i]).has_bytes(),
        ensures
            bytes@ == joined_bytes(values@, order),
    {
        let mut bytes: Vec<u8> = Vec::new();
        let mut i: usize = 0;
        while i < values.len()
            invariant
                i <= values.len(),
                forall|i: int| 0 <= i < values@.len() ==> (#[trigger] values@[i]).has_bytes(),
                bytes@ == joined_bytes(values@.take(i as int), order),
            decreases values.len() - i,
        {
            let one = values[i].as_bytes_in(order);
            append_bytes(&mut bytes, one.as_slice());
            proof {
                let next = values@.take(i + 1);
                assert(next.drop_last() =~= values@.take(i as int));
                assert(next.last() == values@[i as int]);
            }
            i += 1;
        }
        assert(values@.take(values@.len() as int) =~= values@);
        bytes
    }

    /// The bytes of `values` on this machine, whose byte order is one of the
    /// two.
    fn slice_as_bytes(values: &[Self]) -> (bytes: Vec<u8>)
        requires
            forall|i: int| 0 <= i < values@.len() ==> (#[trigger] values@[i]).has_bytes(),
        ensures
            bytes@ == joined_bytes(values@, ByteOrder::Little) || bytes@ == joined_bytes(
                values@,
                ByteOrder::Big,
            ),
    {
        let order = native_byte_order();
        Self::slice_as_bytes_in(values, order)
    }
}

/// The `width` bytes of the two's-complement `value` in the given order.
pub fn signed_bytes(value: i64, width: usize, order: ByteOrder) -> (bytes: Vec<u8>)
    requires
        width == 1 || width == 2 || width == 4 || width == 8,
        width == 1 ==> -0x80 <= value < 0x80,
        width == 2 ==> -0x8000 <= value < 0x8000,
        width == 4 ==> -0x8000_0000 <= value < 0x8000_0000,
    ensures
        bytes@ == uint_bytes(to_unsigned(value as int, width as nat), width as nat, order),
{
    proof {
        lemma_radix_pow_values();
    }
    let bits: u64 = if value >= 0 {
        value as u64
    } else if width == 1 {
        (value + 0x100) as u64
    } else if width == 2 {
        (value + 0x1_0000) as u64
    } else if width == 4 {
        (value + 0x1_0000_0000) as u64
    } else {
        bits_of_i64(value)
    };
    let mut bytes: Vec<u8> = Vec::new();
    write_uint(bits, width, order, &mut bytes);
    assert(bytes@ =~= uint_bytes(to_unsigned(value as int, width as nat), width as nat, order));
    bytes
}

/// The `width` bytes of the unsigned `value` in the given order.
pub fn unsigned_bytes(value: u64, width: usize, order: ByteOrder) -> (bytes: Vec<u8>)
    requires
        width == 1 || width == 2 || width == 4 || width == 8,
        width == 1 ==> value < 0x100,
        width == 2 ==> value < 0x1_0000,
        width == 4 ==> value < 0x1_0000_0000,
    ensures
        bytes@ == uint_bytes(value as nat, width as nat, order),
{
    proof {
        lemma_radix_pow_values();
    }
    let mut bytes: Vec<u8> = Vec::new();
    write_uint(value, width, order, &mut bytes);
    assert(bytes@ =~= uint_bytes(value as nat, width as nat, order));
    bytes
}

/// A copy of `bytes`.
pub fn copied(bytes: &[u8]) -> (copy: Vec<u8>)
    ensures
        copy@ == bytes@,
{
    let mut copy: Vec<u8> = Vec::new();
    append_bytes(&mut copy, bytes);
    assert(copy@ =~= bytes@);
    copy
}

impl AsBytes for [u8] {
    open spec fn has_bytes(&self) -> bool {
        true
    }

    open spec fn bytes_in(&self, order: ByteOrder) -> Seq<u8> {
        self@
    }

    fn as_bytes_in(&self, order: ByteOrder) -> (bytes: Vec<u8>) {
        copied(self)
    }
}

impl AsBytes for Vec<u8> {
    open spec fn has_bytes(&self) -> bool {
        true
    }

    open spec fn bytes_in(&self, order: ByteOrder) -> Seq<u8> {
        self@
    }

    fn as_bytes_in(&self, order: ByteOrder) -> (bytes: Vec<u8>) {
        copied(self.as_slice())
    }
}

impl AsBytes for str {
    open spec fn has_bytes(&self) -> bool {
        true
    }

    open spec fn bytes_in(&self, order: ByteOrder) -> Seq<u8> {
        self.spec_bytes()
    }

    fn as_bytes_in(&self, order: ByteOrder) -> (bytes: Vec<u8>) {
        copied(str::as_bytes(self))
    }
}

impl AsBytes for bool {
    open spec fn has_bytes(&self) -> bool {
        true
    }

    open spec fn bytes_in(&self, order: ByteOrder) -> Seq<u8> {
        seq![
            if *self {
                1u8
            } else {
                0u8
            },
        ]
    }

    fn as_bytes_in(&self, order: ByteOrder) -> (bytes: Vec<u8>) {
        let mut bytes: Vec<u8> = Vec::new();
        bytes.push(
            if *self {
                1
            } else {
                0
            },
        );
        assert(bytes@ =~= self.bytes_in(order));
        bytes
    }
}

impl AsBytes for u8 {
    open spec fn has_bytes(&self) -> bool {
        true
    }

    open spec fn bytes_in(&self, order: ByteOrder) -> Seq<u8> {
        uint_bytes(*self as nat, 1, order)
    }

    fn as_bytes_in(&self, order: ByteOrder) -> (bytes: Vec<u8>) {
        unsigned_bytes(*self as u64, 1, order)
    }
}

impl AsBytes for u16 {
    open spec fn has_bytes(&self) -> bool {
        true
    }

    open spec fn bytes_in(&self, order: ByteOrder) -> Seq<u8> {
        uint_bytes(*self as nat, 2, order)
    }

    fn as_bytes_in(&self, order: ByteOrder) -> (bytes: Vec<u8>) {
        unsigned_bytes(*self as u64, 2, order)
    }
}

impl AsBytes for u32 {
    open spec fn has_bytes(&self) -> bool {
        true
    }

    open spec fn bytes_in(&self, order: ByteOrder) -> Seq<u8> {
        uint_bytes(*self as nat, 4, order)
    }

    fn as_bytes_in(&self, order: ByteOrder) -> (bytes: Vec<u8>) {
        unsigned_bytes(*self as u64, 4, order)
    }
}

impl AsBytes for u64 {
    open spec fn has_bytes(&self) -> bool {
        true
    }

    open spec fn bytes_in(&self, order: ByteOrder) -> Seq<u8> {
        uint_bytes(*self as nat, 8, order)
    }

    fn as_bytes_in(&self, order: ByteOrder) -> (bytes: Vec<u8>) {
        unsigned_bytes(*self, 8, order)
    }
}

impl AsBytes for i8 {
    open spec fn has_bytes(&self) -> bool {
        true
    }

    open spec fn bytes_in(&self, order: ByteOrder) -> Seq<u8> {
        uint_bytes(to_unsigned(*self as int, 1), 1, order)
    }

    fn as_bytes_in(&self, order: ByteOrder) -> (bytes: Vec<u8>) {
        signed_bytes(*self as i64, 1, order)
    }
}

impl AsBytes for i16 {
    open spec fn has_bytes(&self) -> bool {
        true
    }

    open spec fn bytes_in(&self, order: ByteOrder) -> Seq<u8> {
        uint_bytes(to_unsigned(*self as int, 2), 2, order)
    }

    fn as_bytes_in(&self, order: ByteOrder) -> (bytes: Vec<u8>) {
        signed_bytes(*self as i64, 2, order)
    }
}

impl AsBytes for i32 {
    open spec fn has_bytes(&self) -> bool {
        true
    }

    open spec fn bytes_in(&self, order: ByteOrder) -> Seq<u8> {
        uint_bytes(to_unsigned(*self as int, 4), 4, order)
    }

    fn as_bytes_in(&self, order: ByteOrder) -> (bytes: Vec<u8>) {
        signed_bytes(*self as i64, 4, order)
    }
}

impl AsBytes for i64 {
    open spec fn has_bytes(&self) -> bool {
        true
    }

    open spec fn bytes_in(&self, order: ByteOrder) -> Seq<u8> {
        uint_bytes(to_unsigned(*self as int, 8), 8, order)
    }

    fn as_bytes_in(&self, order: ByteOrder) -> (bytes: Vec<u8>) {
        signed_bytes(*self, 8, order)
    }
}

impl AsBytes for FloatBits {
    open spec fn has_bytes(&self) -> bool {
        true
    }

    open spec fn bytes_in(&self, order: ByteOrder) -> Seq<u8> {
        uint_bytes(self.0 as nat, 4, order)
    }

    fn as_bytes_in(&self, order: ByteOrder) -> (bytes: Vec<u8>) {
        unsigned_bytes(self.0 as u64, 4, order)
    }
}

impl AsBytes for DoubleBits {
    open spec fn has_bytes(&self) -> bool {
        true
    }

    open spec fn bytes_in(&self, order: ByteOrder) -> Seq<u8> {
        uint_bytes(self.0 as nat, 8, order)
    }

    fn as_bytes_in(&self, order: ByteOrder) -> (bytes: Vec<u8>) {
        unsigned_bytes(self.0, 8, order)
    }
}

impl AsBytes for Int96 {
    open spec fn has_bytes(&self) -> bool {
        true
    }

    open spec fn bytes_in(&self, order: ByteOrder) -> Seq<u8> {
        words_bytes(self@)
    }

    fn as_bytes_in(&self, order: ByteOrder) -> (bytes: Vec<u8>) {
        let mut bytes: Vec<u8> = Vec::new();
        self.write(order, &mut bytes);
        assert(bytes@ =~= words_bytes(self@));
        bytes
    }
}

impl AsBytes for ByteArray {
    open spec fn has_bytes(&self) -> bool {
        self@ is Some
    }

    open spec fn bytes_in(&self, order: ByteOrder) -> Seq<u8> {
        self@->0
    }

    fn as_bytes_in(&self, order: ByteOrder) -> (bytes: Vec<u8>) {
        copied(self.data())
    }
}

impl AsBytes for FixedLenByteArray {
    open spec fn has_bytes(&self) -> bool {
        self@ is Some
    }

    open spec fn bytes_in(&self, order: ByteOrder) -> Seq<u8> {
        self@->0
    }

    fn as_bytes_in(&self, order: ByteOrder) -> (bytes: Vec<u8>) {
        copied(self.data())
    }
}

impl AsBytes for Decimal {
    open spec fn has_bytes(&self) -> bool {
        self@.data is Some
    }

    open spec fn bytes_in(&self, order: ByteOrder) -> Seq<u8> {
        self@.data->0
    }

    fn as_bytes_in(&self, order: ByteOrder) -> (bytes: Vec<u8>) {
        copied(self.data())
    }
}

impl SliceAsBytes for u8 {

}

impl SliceAsBytes for u16 {

}

impl SliceAsBytes for u32 {

}

impl SliceAsBytes for u64 {

}

impl SliceAsBytes for i8 {

}

impl SliceAsBytes for i16 {

}

impl SliceAsBytes for i32 {

}

impl SliceAsBytes for i64 {

}

impl SliceAsBytes for FloatBits {

}

impl SliceAsBytes for DoubleBits {

}

} // verus!
