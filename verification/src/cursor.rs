//! The cursor of a decoding session: the buffer being decoded, the place
//! reached in it and the number of values still to come.

use crate::buffer::{buffer_as_slice, buffer_bytes, buffer_from_vec, buffer_slice};
use crate::byte_order::{ByteOrder, native_byte_order};
use bytes::Bytes;
use vstd::prelude::*;

verus! {

/// What a cursor stands for.
pub struct CursorView {
    /// The bytes being decoded, once data has been set.
    pub data: Option<Seq<u8>>,
    /// The index of the next byte to decode.
    pub start: nat,
    /// The number of bits already decoded of the byte at `start`; only
    /// booleans leave it other than zero.
    pub bit_offset: nat,
    /// The number of values still to come.
    pub num_values: nat,
    /// The length of each value of a fixed-length byte array column.
    pub type_length: int,
    /// The byte order of the numbers in the data.
    pub order: ByteOrder,
}

impl CursorView {
    /// The place reached lies within the data.
    pub open spec fn wf(self) -> bool {
        match self.data {
            Some(bytes) => {
                &&& self.start <= bytes.len()
                &&& self.bit_offset < 8
                &&& self.bit_offset > 0 ==> self.start < bytes.len()
            },
            None => self.start == 0 && self.bit_offset == 0,
        }
    }

    /// The bytes being decoded; none before data has been set.
    pub open spec fn bytes(self) -> Seq<u8> {
        match self.data {
            Some(bytes) => bytes,
            None => Seq::empty(),
        }
    }

    /// The number of bytes from the place reached to the end of the data.
    pub open spec fn bytes_left(self) -> int {
        self.bytes().len() - self.start
    }

    /// The number of bits from the place reached to the end of the data.
    pub open spec fn bits_left(self) -> int {
        8 * self.bytes_left() - self.bit_offset
    }

    /// The cursor after `bytes` more bytes and `values` more values.
    pub open spec fn advanced(self, bytes: nat, values: nat) -> CursorView {
        CursorView {
            start: self.start + bytes,
            num_values: (self.num_values - values) as nat,
            ..self
        }
    }

    /// The cursor after `bits` more bits, each of them one value.
    pub open spec fn advanced_bits(self, bits: nat) -> CursorView {
        CursorView {
            start: self.start + (self.bit_offset + bits) / 8,
            bit_offset: (self.bit_offset + bits) % 8,
            num_values: (self.num_values - bits) as nat,
            ..self
        }
    }

    /// The cursor at the beginning of `data`, with `num_values` values to come.
    pub open spec fn rearmed(self, data: Seq<u8>, num_values: nat) -> CursorView {
        CursorView { data: Some(data), start: 0, bit_offset: 0, num_values, ..self }
    }
}

/// The state of a decoding session. The reader that owns it arms it with
/// `set_data`; each decoding and skipping advances it.
#[derive(Debug)]
pub struct PlainDecoderDetails {
    num_values: usize,
    start: usize,
    bit_offset: usize,
    type_length: i32,
    byte_order: ByteOrder,
    data: Option<Bytes>,
}

impl View for PlainDecoderDetails {
    type V = CursorView;

    closed spec fn view(&self) -> CursorView {
        CursorView {
            data: match self.data {
                Some(buffer) => Some(buffer_bytes(buffer)),
                None => None,
            },
            start: self.start as nat,
            bit_offset: self.bit_offset as nat,
            num_values: self.num_values as nat,
            type_length: self.type_length as int,
            order: self.byte_order,
        }
    }
}

impl PlainDecoderDetails {
    /// The place reached lies within the data.
    pub open spec fn wf(&self) -> bool {
        self@.wf()
    }

    /// A cursor without data for values of the given length, whose numbers
    /// are in the byte order of this machine.
    pub fn new(type_length: i32) -> (cursor: Self)
        ensures
            cursor.wf(),
            cursor@.data is None,
            cursor@.num_values == 0,
            cursor@.type_length == type_length,
    {
        Self::with_byte_order(type_length, native_byte_order())
    }

    /// A cursor without data for values of the given length, whose numbers
    /// are in the given byte order.
    pub fn with_byte_order(type_length: i32, order: ByteOrder) -> (cursor: Self)
        ensures
            cursor.wf(),
            cursor@ == (CursorView {
                data: None,
                start: 0,
                bit_offset: 0,
                num_values: 0,
                type_length: type_length as int,
                order,
            }),
    {
        PlainDecoderDetails {
            num_values: 0,
            start: 0,
            bit_offset: 0,
            type_length,
            byte_order: order,
            data: None,
        }
    }

    /// Arms the cursor: `num_values` values are to be decoded from the
    /// beginning of `data`.
    pub fn set_data(&mut self, data: Bytes, num_values: usize)
        ensures
            final(self).wf(),
            final(self)@ == old(self)@.rearmed(buffer_bytes(data), num_values as nat),
    {
        self.data = Some(data);
        self.start = 0;
        self.bit_offset = 0;
        self.num_values = num_values;
    }

    /// The number of values still to come.
    pub fn num_values(&self) -> (count: usize)
        ensures
            count == self@.num_values,
    {
        self.num_values
    }

    /// The index of the next byte to decode.
    pub fn start(&self) -> (index: usize)
        ensures
            index == self@.start,
    {
        self.start
    }

    /// The number of bits already decoded of the byte at `start`.
    pub fn bit_offset(&self) -> (bits: usize)
        ensures
            bits == self@.bit_offset,
    {
        self.bit_offset
    }

    /// The length of each value of a fixed-length byte array column.
    pub fn type_length(&self) -> (length: i32)
        ensures
            length == self@.type_length,
    {
        self.type_length
    }

    /// The byte order of the numbers in the data.
    pub fn byte_order(&self) -> (order: ByteOrder)
        ensures
            order == self@.order,
    {
        self.byte_order
    }

    /// Whether data has been set.
    pub fn has_data(&self) -> (set: bool)
        ensures
            set == (self@.data is Some),
    {
        self.data.is_some()
    }

    /// The bytes being decoded; none before data has been set.
    pub fn bytes(&self) -> (bytes: &[u8])
        ensures
            bytes@ == self@.bytes(),
    {
        match &self.data {
            Some(buffer) => buffer_as_slice(buffer),
            None => &[],
        }
    }

    /// A buffer over the bytes `start..end` of the data, sharing its memory.
    pub fn share(&self, start: usize, end: usize) -> (part: Bytes)
        requires
            self@.data is Some,
            start <= end <= self@.bytes().len(),
        ensures
            buffer_bytes(part) == self@.bytes().subrange(start as int, end as int),
    {
        match &self.data {
            Some(buffer) => buffer_slice(buffer, start, end),
            None => buffer_from_vec(Vec::new()),
        }
    }

    /// Moves the cursor on by `bytes` bytes and `values` values.
    pub(crate) fn advance(&mut self, bytes: usize, values: usize)
        requires
            old(self).wf(),
            old(self)@.bit_offset == 0,
            bytes <= old(self)@.bytes_left(),
            values <= old(self)@.num_values,
        ensures
            final(self).wf(),
            final(self)@ == old(self)@.advanced(bytes as nat, values as nat),
    {
        // The data's length fits the address width, and so does the new start.
        let _ = self.bytes().len();
        self.start += bytes;
        self.num_values -= values;
    }

    /// Moves the cursor on by `bits` bits, each of them one value.
    pub(crate) fn advance_bits(&mut self, bits: usize)
        requires
            old(self).wf(),
            bits <= old(self)@.bits_left(),
            bits <= old(self)@.num_values,
        ensures
            final(self).wf(),
            final(self)@ == old(self)@.advanced_bits(bits as nat),
    {
        // The data's length fits the address width, and so does the new start.
        let _ = self.bytes().len();
        let whole: usize = bits / 8;
        let reached: usize = self.bit_offset + bits % 8;
        self.start += whole + reached / 8;
        self.bit_offset = reached % 8;
        self.num_values -= bits;
    }
}

} // verus!
