//! What every physical type can do: encode, decode and skip in the PLAIN
//! encoding, and answer the questions of statistics and dictionaries.

use crate::bit_packed::{
    BitWriter, bits_decode, bits_decoded, bits_encode, bits_skip, bits_skipped,
    lemma_bits_round_trip, lemma_bits_skip_as_decode, packed,
};
use crate::buffer::buffer_bytes;
use crate::byte_array::{ByteArray, FixedLenByteArray};
use crate::byte_order::{ByteOrder, bits_of_i64, native_byte_order, to_unsigned};
use crate::cursor::{CursorView, PlainDecoderDetails};
use crate::errors::CodecError;
use crate::fixed_length::{
    lemma_raw_bytes_layout, lemma_raw_round_trip, lemma_raw_skip_as_decode, of_length, raw_bytes,
    raw_decode, raw_decoded, raw_encode, raw_skip, raw_skipped,
};
use crate::fixed_width::{
    FixedWidth, at_most, fixed_bytes, fixed_decode, fixed_decoded, fixed_encode, fixed_skip,
    fixed_skipped, lemma_fixed_bytes_layout, lemma_fixed_round_trip, lemma_fixed_skip_as_decode,
    views,
};
use crate::int96::Int96;
use crate::length_prefixed::{
    lemma_prefixed_round_trip, lemma_prefixed_skip_as_decode, lemma_prefixed_values_end, prefixable,
    prefixed_bytes, prefixed_decode, prefixed_decoded, prefixed_encode, prefixed_skip,
    prefixed_skipped,
};
use crate::scalars::{DoubleBits, FloatBits};
use crate::sealed::Sealed;
use bytes::Bytes;
use vstd::prelude::*;

verus! {

/// The wire-level kinds of values.
#[allow(non_camel_case_types)]
#[derive(Clone, Copy, Debug, PartialEq, Eq, Structural)]
pub enum Type {
    /// One bit.
    BOOLEAN,
    /// A 32-bit two's-complement integer.
    INT32,
    /// A 64-bit two's-complement integer.
    INT64,
    /// A 96-bit legacy timestamp.
    INT96,
    /// A single precision number.
    FLOAT,
    /// A double precision number.
    DOUBLE,
    /// A byte array of any length.
    BYTE_ARRAY,
    /// A byte array of the length that the column fixes.
    FIXED_LEN_BYTE_ARRAY,
}

/// What a value of any physical type stands for.
pub enum ValueView {
    /// A boolean.
    Boolean(bool),
    /// A 32-bit integer.
    Int32(i32),
    /// A 64-bit integer.
    Int64(i64),
    /// The three words of a 96-bit timestamp.
    Int96(Seq<u32>),
    /// The bits of a single precision number.
    Float(u32),
    /// The bits of a double precision number.
    Double(u64),
    /// The data of a byte array.
    ByteArray(Option<Seq<u8>>),
    /// The data of a fixed-length byte array.
    FixedLenByteArray(Option<Seq<u8>>),
}

impl ValueView {
    /// The wire-level kind of the value.
    pub open spec fn physical_type(self) -> Type {
        match self {
            ValueView::Boolean(_) => Type::BOOLEAN,
            ValueView::Int32(_) => Type::INT32,
            ValueView::Int64(_) => Type::INT64,
            ValueView::Int96(_) => Type::INT96,
            ValueView::Float(_) => Type::FLOAT,
            ValueView::Double(_) => Type::DOUBLE,
            ValueView::ByteArray(_) => Type::BYTE_ARRAY,
            ValueView::FixedLenByteArray(_) => Type::FIXED_LEN_BYTE_ARRAY,
        }
    }
}

/// A value of any physical type: what is left of a value once its type is
/// forgotten. Each physical type turns its values into these and gets them
/// back where the kind is its own.
#[derive(Debug)]
pub enum PhysicalValue {
    /// A boolean.
    Boolean(bool),
    /// A 32-bit integer.
    Int32(i32),
    /// A 64-bit integer.
    Int64(i64),
    /// A 96-bit timestamp.
    Int96(Int96),
    /// A single precision number.
    Float(FloatBits),
    /// A double precision number.
    Double(DoubleBits),
    /// A byte array.
    ByteArray(ByteArray),
    /// A fixed-length byte array.
    FixedLenByteArray(FixedLenByteArray),
}

impl View for PhysicalValue {
    type V = ValueView;

    open spec fn view(&self) -> ValueView {
        match *self {
            PhysicalValue::Boolean(value) => ValueView::Boolean(value),
            PhysicalValue::Int32(value) => ValueView::Int32(value),
            PhysicalValue::Int64(value) => ValueView::Int64(value),
            PhysicalValue::Int96(value) => ValueView::Int96(value@),
            PhysicalValue::Float(value) => ValueView::Float(value@),
            PhysicalValue::Double(value) => ValueView::Double(value@),
            PhysicalValue::ByteArray(value) => ValueView::ByteArray(value@),
            PhysicalValue::FixedLenByteArray(value) => ValueView::FixedLenByteArray(value@),
        }
    }
}

impl PhysicalValue {
    /// The wire-level kind of the value.
    pub fn physical_type(&self) -> (tag: Type)
        ensures
            tag == self@.physical_type(),
    {
        match self {
            PhysicalValue::Boolean(_) => Type::BOOLEAN,
            PhysicalValue::Int32(_) => Type::INT32,
            PhysicalValue::Int64(_) => Type::INT64,
            PhysicalValue::Int96(_) => Type::INT96,
            PhysicalValue::Float(_) => Type::FLOAT,
            PhysicalValue::Double(_) => Type::DOUBLE,
            PhysicalValue::ByteArray(_) => Type::BYTE_ARRAY,
            PhysicalValue::FixedLenByteArray(_) => Type::FIXED_LEN_BYTE_ARRAY,
        }
    }
}

/// What decoding `count` values does to a buffer that held `before`: the
/// values come first, the rest of the buffer stays.
pub open spec fn filled<V>(before: Seq<V>, values: Seq<V>) -> Seq<V> {
    values + before.skip(values.len() as int)
}

/// A physical type. The set of physical types is closed: each is one of the
/// wire-level kinds of `Type`.
pub trait ParquetValueType: Sized + View + Sealed {
    /// The wire-level kind of the type.
    spec fn physical_type() -> Type;

    /// Whether a value is complete: a byte array is once it has data, every
    /// other value always.
    spec fn complete(value: Self::V) -> bool;

    /// Whether a value can be encoded.
    spec fn encodable(value: Self::V) -> bool;

    /// Whether a value is one that a column of the given `type_length` holds.
    spec fn conforms(value: Self::V, type_length: int) -> bool;

    /// The bytes that encoding `values` writes.
    spec fn plain_bytes(values: Seq<Self::V>, order: ByteOrder) -> Seq<u8>;

    /// The bits that encoding `values` writes.
    spec fn plain_bits(values: Seq<Self::V>) -> Seq<bool>;

    /// What decoding and skipping ask of the cursor beyond data.
    spec fn ready(cursor: CursorView) -> bool;

    /// The cursor after skipping `count` values; `None` where the data end first.
    spec fn skipped(cursor: CursorView, count: nat) -> Option<CursorView>;

    /// The next `count` values and the cursor after them; `None` where the
    /// data end first.
    spec fn decoded(cursor: CursorView, count: nat) -> Option<(Seq<Self::V>, CursorView)>;

    /// The width and the count by which a dictionary sizes `value`.
    spec fn dict_size(value: Self::V) -> (nat, nat);

    /// The sum of the lengths of `values`, for a type of byte arrays.
    spec fn variable_length(values: Seq<Self::V>) -> Option<int>;

    /// The integer that `value` is, for a boolean or integer type.
    spec fn as_integer(value: Self::V) -> Option<int>;

    /// The bytes that `value` keeps on the heap.
    spec fn held_bytes(value: Self::V) -> Option<Seq<u8>>;

    /// `value` with its type forgotten.
    spec fn erased(value: Self::V) -> ValueView;

    /// Forgetting the type keeps the kind and loses nothing of the value.
    proof fn lemma_erased(left: Self::V, right: Self::V)
        ensures
            Self::erased(left).physical_type() == Self::physical_type(),
            Self::erased(left) == Self::erased(right) ==> left == right,
    ;

    /// A cursor that stands at the beginning of a byte is ready for every
    /// type, once the length of the column's values is positive.
    proof fn lemma_ready(cursor: CursorView)
        requires
            cursor.bit_offset == 0,
            cursor.type_length > 0,
        ensures
            Self::ready(cursor),
    ;

    /// Skipping values moves the cursor as decoding them does, and fails
    /// where decoding them fails.
    proof fn lemma_skip_as_decode(cursor: CursorView, count: nat)
        requires
            cursor.wf(),
            Self::ready(cursor),
        ensures
            Self::skipped(cursor, count) == match Self::decoded(cursor, count) {
                Some((_, next)) => Some(next),
                None => None,
            },
    ;

    /// Decoding what was encoded yields the values that were encoded, bit
    /// for bit, and leaves nothing but the padding of the last byte.
    proof fn lemma_round_trip(values: Seq<Self::V>, cursor: CursorView)
        requires
            forall|i: int|
                0 <= i < values.len() ==> Self::encodable(#[trigger] values[i]) && Self::conforms(
                    values[i],
                    cursor.type_length,
                ),
            Self::ready(cursor),
            cursor.data == Some(
                Self::plain_bytes(values, cursor.order) + packed(Self::plain_bits(values)),
            ),
            cursor.start == 0,
            cursor.bit_offset == 0,
            cursor.num_values >= values.len(),
        ensures
            Self::decoded(cursor, values.len()) matches Some((decoded, next)) && decoded == values
                && 0 <= next.bits_left() < 8 && next.num_values == cursor.num_values
                - values.len(),
    ;

    /// The wire-level kind of the type.
    fn physical_type_tag() -> (tag: Type)
        ensures
            tag == Self::physical_type(),
    ;

    /// Encodes `values`: numbers in the given byte order, bytes to `writer`,
    /// bits to `bit_writer`.
    fn encode(values: &[Self], order: ByteOrder, writer: &mut Vec<u8>, bit_writer: &mut BitWriter)
        requires
            old(bit_writer).wf(),
            forall|i: int| 0 <= i < values@.len() ==> Self::encodable(#[trigger] values@[i]@),
        ensures
            final(bit_writer).wf(),
            final(writer)@ == old(writer)@ + Self::plain_bytes(views(values@), order),
            final(bit_writer)@ == old(bit_writer)@ + Self::plain_bits(views(values@)),
    ;

    /// Arms the cursor: `num_values` values are to be decoded from the
    /// beginning of `data`.
    fn set_data(decoder: &mut PlainDecoderDetails, data: Bytes, num_values: usize)
        ensures
            final(decoder).wf(),
            final(decoder)@ == old(decoder)@.rearmed(buffer_bytes(data), num_values as nat),
    ;

    /// Decodes `min(buffer.len(), remaining)` values into the front of
    /// `buffer` and returns their number: `UnexpectedEof`, with the cursor
    /// and the buffer as they were, where the data end first.
    fn decode(buffer: &mut [Self], decoder: &mut PlainDecoderDetails) -> (result: Result<
        usize,
        CodecError,
    >)
        requires
            old(decoder).wf(),
            old(decoder)@.data is Some,
            Self::ready(old(decoder)@),
        ensures
            final(decoder).wf(),
            final(buffer)@.len() == old(buffer)@.len(),
            match Self::decoded(
                old(decoder)@,
                at_most(old(buffer)@.len(), old(decoder)@.num_values),
            ) {
                Some((values, cursor)) => {
                    &&& result == Ok::<usize, CodecError>(values.len() as usize)
                    &&& values.len() == at_most(old(buffer)@.len(), old(decoder)@.num_values)
                    &&& final(decoder)@ == cursor
                    &&& views(final(buffer)@) == filled(views(old(buffer)@), values)
                },
                None => {
                    &&& result == Err::<usize, CodecError>(CodecError::UnexpectedEof)
                    &&& final(decoder)@ == old(decoder)@
                    &&& views(final(buffer)@) == views(old(buffer)@)
                },
            },
    ;

    /// Skips `min(num_values, remaining)` values and returns their number:
    /// `UnexpectedEof`, with the cursor as it was, where the data end first.
    fn skip(decoder: &mut PlainDecoderDetails, num_values: usize) -> (result: Result<
        usize,
        CodecError,
    >)
        requires
            old(decoder).wf(),
            old(decoder)@.data is Some,
            Self::ready(old(decoder)@),
        ensures
            final(decoder).wf(),
            match Self::skipped(
                old(decoder)@,
                at_most(num_values as nat, old(decoder)@.num_values),
            ) {
                Some(cursor) => result == Ok::<usize, CodecError>(
                    at_most(num_values as nat, old(decoder)@.num_values) as usize,
                ) && final(decoder)@ == cursor,
                None => result == Err::<usize, CodecError>(CodecError::UnexpectedEof)
                    && final(decoder)@ == old(decoder)@,
            },
    ;

    /// The width and the count by which a dictionary sizes this value.
    fn dict_encoding_size(&self) -> (size: (usize, usize))
        requires
            Self::complete(self@),
        ensures
            size.0 == Self::dict_size(self@).0,
            size.1 == Self::dict_size(self@).1,
    ;

    /// The sum of the lengths of `values` for a type of byte arrays, `None`
    /// for every other type.
    fn variable_length_bytes(values: &[Self]) -> (total: Option<i64>)
        requires
            forall|i: int| 0 <= i < values@.len() ==> Self::complete(#[trigger] values@[i]@),
            Self::variable_length(views(values@)) matches Some(sum) ==> sum <= i64::MAX,
        ensures
            match Self::variable_length(views(values@)) {
                Some(sum) => total == Some(sum as i64),
                None => total is None,
            },
    ;

    /// The value as a 64-bit integer: `TypeMismatch` unless the type is a
    /// boolean or integer type.
    fn as_i64(&self) -> (result: Result<i64, CodecError>)
        ensures
            match Self::as_integer(self@) {
                Some(number) => result == Ok::<i64, CodecError>(number as i64),
                None => result == Err::<i64, CodecError>(CodecError::TypeMismatch),
            },
    ;

    /// The value as an unsigned 64-bit integer, a negative number by its
    /// two's-complement bits: `TypeMismatch` unless the type is a boolean or
    /// integer type.
    fn as_u64(&self) -> (result: Result<u64, CodecError>)
        ensures
            match Self::as_integer(self@) {
                Some(number) => result == Ok::<u64, CodecError>(to_unsigned(number, 8) as u64),
                None => result == Err::<u64, CodecError>(CodecError::TypeMismatch),
            },
    ;

    /// The number of bytes this value keeps on the heap.
    fn heap_size(&self) -> (size: usize)
        ensures
            size == match Self::held_bytes(self@) {
                Some(bytes) => bytes.len(),
                None => 0,
            },
    ;


    /// The value with its type forgotten.
    fn into_value(self) -> (erased: PhysicalValue)
        ensures
            erased@ == Self::erased(self@),
    ;

    /// The value as one of this type, or the value back where its kind is
    /// that of another type.
    fn from_value(value: PhysicalValue) -> (typed: Result<Self, PhysicalValue>)
        ensures
            typed is Ok <==> value@.physical_type() == Self::physical_type(),
            typed matches Ok(own) ==> Self::erased(own@) == value@,
            typed matches Err(other) ==> other@ == value@,
    ;
}

/// A physical type whose values hold their data in a shared buffer.
pub trait BytesBacked: ParquetValueType {
    /// Sets the data of this value to the bytes of `data`.
    fn set_from_bytes(&mut self, data: Bytes)
        ensures
            Self::held_bytes(final(self)@) == Some(buffer_bytes(data)),
    ;
}

impl ParquetValueType for i32 {
    open spec fn physical_type() -> Type {
        Type::INT32
    }

    open spec fn complete(value: i32) -> bool {
        true
    }

    open spec fn encodable(value: i32) -> bool {
        true
    }

    open spec fn conforms(value: i32, type_length: int) -> bool {
        true
    }

    open spec fn plain_bytes(values: Seq<i32>, order: ByteOrder) -> Seq<u8> {
        fixed_bytes::<i32>(values, order)
    }

    open spec fn plain_bits(values: Seq<i32>) -> Seq<bool> {
        Seq::empty()
    }

    open spec fn ready(cursor: CursorView) -> bool {
        cursor.bit_offset == 0
    }

    open spec fn skipped(cursor: CursorView, count: nat) -> Option<CursorView> {
        fixed_skipped::<i32>(cursor, count)
    }

    open spec fn decoded(cursor: CursorView, count: nat) -> Option<(Seq<i32>, CursorView)> {
        fixed_decoded::<i32>(cursor, count)
    }

    open spec fn dict_size(value: i32) -> (nat, nat) {
        (4, 1)
    }

    open spec fn variable_length(values: Seq<i32>) -> Option<int> {
        None
    }

    open spec fn as_integer(value: i32) -> Option<int> {
        Some(value as int)
    }

    open spec fn held_bytes(value: i32) -> Option<Seq<u8>> {
        None
    }

    open spec fn erased(value: i32) -> ValueView {
        ValueView::Int32(value)
    }

    proof fn lemma_erased(left: i32, right: i32) {
    }

    proof fn lemma_ready(cursor: CursorView) {
    }

    proof fn lemma_skip_as_decode(cursor: CursorView, count: nat) {
        lemma_fixed_skip_as_decode::<i32>(cursor, count);
    }

    proof fn lemma_round_trip(values: Seq<i32>, cursor: CursorView) {
        let bytes = fixed_bytes::<i32>(values, cursor.order);
        assert(packed(Seq::<bool>::empty()) =~= Seq::<u8>::empty());
        assert(bytes + Seq::<u8>::empty() =~= bytes);
        lemma_fixed_bytes_layout::<i32>(values, cursor.order);
        lemma_fixed_round_trip::<i32>(values, cursor);
    }

    fn physical_type_tag() -> (tag: Type) {
        Type::INT32
    }

    fn encode(values: &[Self], order: ByteOrder, writer: &mut Vec<u8>, bit_writer: &mut BitWriter) {
        fixed_encode::<i32>(values, order, writer);
        assert(bit_writer@ + Seq::<bool>::empty() =~= bit_writer@);
    }

    fn set_data(decoder: &mut PlainDecoderDetails, data: Bytes, num_values: usize) {
        decoder.set_data(data, num_values);
    }

    fn decode(buffer: &mut [Self], decoder: &mut PlainDecoderDetails) -> (result: Result<
        usize,
        CodecError,
    >) {
        fixed_decode::<i32>(buffer, decoder)
    }

    fn skip(decoder: &mut PlainDecoderDetails, num_values: usize) -> (result: Result<
        usize,
        CodecError,
    >) {
        fixed_skip::<i32>(decoder, num_values)
    }

    fn dict_encoding_size(&self) -> (size: (usize, usize)) {
        (4, 1)
    }

    fn variable_length_bytes(values: &[Self]) -> (total: Option<i64>) {
        None
    }

    fn as_i64(&self) -> (result: Result<i64, CodecError>) {
        Ok(*self as i64)
    }

    fn as_u64(&self) -> (result: Result<u64, CodecError>) {
        Ok(bits_of_i64(*self as i64))
    }

    fn heap_size(&self) -> (size: usize) {
        0
    }

    fn into_value(self) -> (erased: PhysicalValue) {
        PhysicalValue::Int32(self)
    }

    fn from_value(value: PhysicalValue) -> (typed: Result<Self, PhysicalValue>) {
        match value {
            PhysicalValue::Int32(own) => Ok(own),
            other => Err(other),
        }
    }
}

impl ParquetValueType for i64 {
    open spec fn physical_type() -> Type {
        Type::INT64
    }

    open spec fn complete(value: i64) -> bool {
        true
    }

    open spec fn encodable(value: i64) -> bool {
        true
    }

    open spec fn conforms(value: i64, type_length: int) -> bool {
        true
    }

    open spec fn plain_bytes(values: Seq<i64>, order: ByteOrder) -> Seq<u8> {
        fixed_bytes::<i64>(values, order)
    }

    open spec fn plain_bits(values: Seq<i64>) -> Seq<bool> {
        Seq::empty()
    }

    open spec fn ready(cursor: CursorView) -> bool {
        cursor.bit_offset == 0
    }

    open spec fn skipped(cursor: CursorView, count: nat) -> Option<CursorView> {
        fixed_skipped::<i64>(cursor, count)
    }

    open spec fn decoded(cursor: CursorView, count: nat) -> Option<(Seq<i64>, CursorView)> {
        fixed_decoded::<i64>(cursor, count)
    }

    open spec fn dict_size(value: i64) -> (nat, nat) {
        (8, 1)
    }

    open spec fn variable_length(values: Seq<i64>) -> Option<int> {
        None
    }

    open spec fn as_integer(value: i64) -> Option<int> {
        Some(value as int)
    }

    open spec fn held_bytes(value: i64) -> Option<Seq<u8>> {
        None
    }

    open spec fn erased(value: i64) -> ValueView {
        ValueView::Int64(value)
    }

    proof fn lemma_erased(left: i64, right: i64) {
    }

    proof fn lemma_ready(cursor: CursorView) {
    }

    proof fn lemma_skip_as_decode(cursor: CursorView, count: nat) {
        lemma_fixed_skip_as_decode::<i64>(cursor, count);
    }

    proof fn lemma_round_trip(values: Seq<i64>, cursor: CursorView) {
        let bytes = fixed_bytes::<i64>(values, cursor.order);
        assert(packed(Seq::<bool>::empty()) =~= Seq::<u8>::empty());
        assert(bytes + Seq::<u8>::empty() =~= bytes);
        lemma_fixed_bytes_layout::<i64>(values, cursor.order);
        lemma_fixed_round_trip::<i64>(values, cursor);
    }

    fn physical_type_tag() -> (tag: Type) {
        Type::INT64
    }

    fn encode(values: &[Self], order: ByteOrder, writer: &mut Vec<u8>, bit_writer: &mut BitWriter) {
        fixed_encode::<i64>(values, order, writer);
        assert(bit_writer@ + Seq::<bool>::empty() =~= bit_writer@);
    }

    fn set_data(decoder: &mut PlainDecoderDetails, data: Bytes, num_values: usize) {
        decoder.set_data(data, num_values);
    }

    fn decode(buffer: &mut [Self], decoder: &mut PlainDecoderDetails) -> (result: Result<
        usize,
        CodecError,
    >) {
        fixed_decode::<i64>(buffer, decoder)
    }

    fn skip(decoder: &mut PlainDecoderDetails, num_values: usize) -> (result: Result<
        usize,
        CodecError,
    >) {
        fixed_skip::<i64>(decoder, num_values)
    }

    fn dict_encoding_size(&self) -> (size: (usize, usize)) {
        (8, 1)
    }

    fn variable_length_bytes(values: &[Self]) -> (total: Option<i64>) {
        None
    }

    fn as_i64(&self) -> (result: Result<i64, CodecError>) {
        Ok(*self)
    }

    fn as_u64(&self) -> (result: Result<u64, CodecError>) {
        Ok(bits_of_i64(*self))
    }

    fn heap_size(&self) -> (size: usize) {
        0
    }

    fn into_value(self) -> (erased: PhysicalValue) {
        PhysicalValue::Int64(self)
    }

    fn from_value(value: PhysicalValue) -> (typed: Result<Self, PhysicalValue>) {
        match value {
            PhysicalValue::Int64(own) => Ok(own),
            other => Err(other),
        }
    }
}

impl ParquetValueType for FloatBits {
    open spec fn physical_type() -> Type {
        Type::FLOAT
    }

    open spec fn complete(value: u32) -> bool {
        true
    }

    open spec fn encodable(value: u32) -> bool {
        true
    }

    open spec fn conforms(value: u32, type_length: int) -> bool {
        true
    }

    open spec fn plain_bytes(values: Seq<u32>, order: ByteOrder) -> Seq<u8> {
        fixed_bytes::<FloatBits>(values, order)
    }

    open spec fn plain_bits(values: Seq<u32>) -> Seq<bool> {
        Seq::empty()
    }

    open spec fn ready(cursor: CursorView) -> bool {
        cursor.bit_offset == 0
    }

    open spec fn skipped(cursor: CursorView, count: nat) -> Option<CursorView> {
        fixed_skipped::<FloatBits>(cursor, count)
    }

    open spec fn decoded(cursor: CursorView, count: nat) -> Option<(Seq<u32>, CursorView)> {
        fixed_decoded::<FloatBits>(cursor, count)
    }

    open spec fn dict_size(value: u32) -> (nat, nat) {
        (4, 1)
    }

    open spec fn variable_length(values: Seq<u32>) -> Option<int> {
        None
    }

    open spec fn as_integer(value: u32) -> Option<int> {
        None
    }

    open spec fn held_bytes(value: u32) -> Option<Seq<u8>> {
        None
    }

    open spec fn erased(value: u32) -> ValueView {
        ValueView::Float(value)
    }

    proof fn lemma_erased(left: u32, right: u32) {
    }

    proof fn lemma_ready(cursor: CursorView) {
    }

    proof fn lemma_skip_as_decode(cursor: CursorView, count: nat) {
        lemma_fixed_skip_as_decode::<FloatBits>(cursor, count);
    }

    proof fn lemma_round_trip(values: Seq<u32>, cursor: CursorView) {
        let bytes = fixed_bytes::<FloatBits>(values, cursor.order);
        assert(packed(Seq::<bool>::empty()) =~= Seq::<u8>::empty());
        assert(bytes + Seq::<u8>::empty() =~= bytes);
        lemma_fixed_bytes_layout::<FloatBits>(values, cursor.order);
        lemma_fixed_round_trip::<FloatBits>(values, cursor);
    }

    fn physical_type_tag() -> (tag: Type) {
        Type::FLOAT
    }

    fn encode(values: &[Self], order: ByteOrder, writer: &mut Vec<u8>, bit_writer: &mut BitWriter) {
        fixed_encode::<FloatBits>(values, order, writer);
        assert(bit_writer@ + Seq::<bool>::empty() =~= bit_writer@);
    }

    fn set_data(decoder: &mut PlainDecoderDetails, data: Bytes, num_values: usize) {
        decoder.set_data(data, num_values);
    }

    fn decode(buffer: &mut [Self], decoder: &mut PlainDecoderDetails) -> (result: Result<
        usize,
        CodecError,
    >) {
        fixed_decode::<FloatBits>(buffer, decoder)
    }

    fn skip(decoder: &mut PlainDecoderDetails, num_values: usize) -> (result: Result<
        usize,
        CodecError,
    >) {
        fixed_skip::<FloatBits>(decoder, num_values)
    }

    fn dict_encoding_size(&self) -> (size: (usize, usize)) {
        (4, 1)
    }

    fn variable_length_bytes(values: &[Self]) -> (total: Option<i64>) {
        None
    }

    fn as_i64(&self) -> (result: Result<i64, CodecError>) {
        Err(CodecError::TypeMismatch)
    }

    fn as_u64(&self) -> (result: Result<u64, CodecError>) {
        Err(CodecError::TypeMismatch)
    }

    fn heap_size(&self) -> (size: usize) {
        0
    }

    fn into_value(self) -> (erased: PhysicalValue) {
        PhysicalValue::Float(self)
    }

    fn from_value(value: PhysicalValue) -> (typed: Result<Self, PhysicalValue>) {
        match value {
            PhysicalValue::Float(own) => Ok(own),
            other => Err(other),
        }
    }
}

impl ParquetValueType for DoubleBits {
    open spec fn physical_type() -> Type {
        Type::DOUBLE
    }

    open spec fn complete(value: u64) -> bool {
        true
    }

    open spec fn encodable(value: u64) -> bool {
        true
    }

    open spec fn conforms(value: u64, type_length: int) -> bool {
        true
    }

    open spec fn plain_bytes(values: Seq<u64>, order: ByteOrder) -> Seq<u8> {
        fixed_bytes::<DoubleBits>(values, order)
    }

    open spec fn plain_bits(values: Seq<u64>) -> Seq<bool> {
        Seq::empty()
    }

    open spec fn ready(cursor: CursorView) -> bool {
        cursor.bit_offset == 0
    }

    open spec fn skipped(cursor: CursorView, count: nat) -> Option<CursorView> {
        fixed_skipped::<DoubleBits>(cursor, count)
    }

    open spec fn decoded(cursor: CursorView, count: nat) -> Option<(Seq<u64>, CursorView)> {
        fixed_decoded::<DoubleBits>(cursor, count)
    }

    open spec fn dict_size(value: u64) -> (nat, nat) {
        (8, 1)
    }

    open spec fn variable_length(values: Seq<u64>) -> Option<int> {
        None
    }

    open spec fn as_integer(value: u64) -> Option<int> {
        None
    }

    open spec fn held_bytes(value: u64) -> Option<Seq<u8>> {
        None
    }

    open spec fn erased(value: u64) -> ValueView {
        ValueView::Double(value)
    }

    proof fn lemma_erased(left: u64, right: u64) {
    }

    proof fn lemma_ready(cursor: CursorView) {
    }

    proof fn lemma_skip_as_decode(cursor: CursorView, count: nat) {
        lemma_fixed_skip_as_decode::<DoubleBits>(cursor, count);
    }

    proof fn lemma_round_trip(values: Seq<u64>, cursor: CursorView) {
        let bytes = fixed_bytes::<DoubleBits>(values, cursor.order);
        assert(packed(Seq::<bool>::empty()) =~= Seq::<u8>::empty());
        assert(bytes + Seq::<u8>::empty() =~= bytes);
        lemma_fixed_bytes_layout::<DoubleBits>(values, cursor.order);
        lemma_fixed_round_trip::<DoubleBits>(values, cursor);
    }

    fn physical_type_tag() -> (tag: Type) {
        Type::DOUBLE
    }

    fn encode(values: &[Self], order: ByteOrder, writer: &mut Vec<u8>, bit_writer: &mut BitWriter) {
        fixed_encode::<DoubleBits>(values, order, writer);
        assert(bit_writer@ + Seq::<bool>::empty() =~= bit_writer@);
    }

    fn set_data(decoder: &mut PlainDecoderDetails, data: Bytes, num_values: usize) {
        decoder.set_data(data, num_values);
    }

    fn decode(buffer: &mut [Self], decoder: &mut PlainDecoderDetails) -> (result: Result<
        usize,
        CodecError,
    >) {
        fixed_decode::<DoubleBits>(buffer, decoder)
    }

    fn skip(decoder: &mut PlainDecoderDetails, num_values: usize) -> (result: Result<
        usize,
        CodecError,
    >) {
        fixed_skip::<DoubleBits>(decoder, num_values)
    }

    fn dict_encoding_size(&self) -> (size: (usize, usize)) {
        (8, 1)
    }

    fn variable_length_bytes(values: &[Self]) -> (total: Option<i64>) {
        None
    }

    fn as_i64(&self) -> (result: Result<i64, CodecError>) {
        Err(CodecError::TypeMismatch)
    }

    fn as_u64(&self) -> (result: Result<u64, CodecError>) {
        Err(CodecError::TypeMismatch)
    }

    fn heap_size(&self) -> (size: usize) {
        0
    }

    fn into_value(self) -> (erased: PhysicalValue) {
        PhysicalValue::Double(self)
    }

    fn from_value(value: PhysicalValue) -> (typed: Result<Self, PhysicalValue>) {
        match value {
            PhysicalValue::Double(own) => Ok(own),
            other => Err(other),
        }
    }
}

impl ParquetValueType for Int96 {
    open spec fn physical_type() -> Type {
        Type::INT96
    }

    open spec fn complete(value: Seq<u32>) -> bool {
        true
    }

    open spec fn encodable(value: Seq<u32>) -> bool {
        true
    }

    open spec fn conforms(value: Seq<u32>, type_length: int) -> bool {
        value.len() == 3
    }

    open spec fn plain_bytes(values: Seq<Seq<u32>>, order: ByteOrder) -> Seq<u8> {
        fixed_bytes::<Int96>(values, order)
    }

    open spec fn plain_bits(values: Seq<Seq<u32>>) -> Seq<bool> {
        Seq::empty()
    }

    open spec fn ready(cursor: CursorView) -> bool {
        cursor.bit_offset == 0
    }

    open spec fn skipped(cursor: CursorView, count: nat) -> Option<CursorView> {
        fixed_skipped::<Int96>(cursor, count)
    }

    open spec fn decoded(cursor: CursorView, count: nat) -> Option<(Seq<Seq<u32>>, CursorView)> {
        fixed_decoded::<Int96>(cursor, count)
    }

    open spec fn dict_size(value: Seq<u32>) -> (nat, nat) {
        (12, 1)
    }

    open spec fn variable_length(values: Seq<Seq<u32>>) -> Option<int> {
        None
    }

    open spec fn as_integer(value: Seq<u32>) -> Option<int> {
        None
    }

    open spec fn held_bytes(value: Seq<u32>) -> Option<Seq<u8>> {
        None
    }

    open spec fn erased(value: Seq<u32>) -> ValueView {
        ValueView::Int96(value)
    }

    proof fn lemma_erased(left: Seq<u32>, right: Seq<u32>) {
    }

    proof fn lemma_ready(cursor: CursorView) {
    }

    proof fn lemma_skip_as_decode(cursor: CursorView, count: nat) {
        lemma_fixed_skip_as_decode::<Int96>(cursor, count);
    }

    proof fn lemma_round_trip(values: Seq<Seq<u32>>, cursor: CursorView) {
        let bytes = fixed_bytes::<Int96>(values, cursor.order);
        assert(packed(Seq::<bool>::empty()) =~= Seq::<u8>::empty());
        assert(bytes + Seq::<u8>::empty() =~= bytes);
        lemma_fixed_bytes_layout::<Int96>(values, cursor.order);
        lemma_fixed_round_trip::<Int96>(values, cursor);
    }

    fn physical_type_tag() -> (tag: Type) {
        Type::INT96
    }

    fn encode(values: &[Self], order: ByteOrder, writer: &mut Vec<u8>, bit_writer: &mut BitWriter) {
        fixed_encode::<Int96>(values, order, writer);
        assert(bit_writer@ + Seq::<bool>::empty() =~= bit_writer@);
    }

    fn set_data(decoder: &mut PlainDecoderDetails, data: Bytes, num_values: usize) {
        decoder.set_data(data, num_values);
    }

    fn decode(buffer: &mut [Self], decoder: &mut PlainDecoderDetails) -> (result: Result<
        usize,
        CodecError,
    >) {
        fixed_decode::<Int96>(buffer, decoder)
    }

    fn skip(decoder: &mut PlainDecoderDetails, num_values: usize) -> (result: Result<
        usize,
        CodecError,
    >) {
        fixed_skip::<Int96>(decoder, num_values)
    }

    fn dict_encoding_size(&self) -> (size: (usize, usize)) {
        (12, 1)
    }

    fn variable_length_bytes(values: &[Self]) -> (total: Option<i64>) {
        None
    }

    fn as_i64(&self) -> (result: Result<i64, CodecError>) {
        Err(CodecError::TypeMismatch)
    }

    fn as_u64(&self) -> (result: Result<u64, CodecError>) {
        Err(CodecError::TypeMismatch)
    }

    fn heap_size(&self) -> (size: usize) {
        0
    }

    fn into_value(self) -> (erased: PhysicalValue) {
        PhysicalValue::Int96(self)
    }

    fn from_value(value: PhysicalValue) -> (typed: Result<Self, PhysicalValue>) {
        match value {
            PhysicalValue::Int96(own) => Ok(own),
            other => Err(other),
        }
    }
}

impl ParquetValueType for bool {
    open spec fn physical_type() -> Type {
        Type::BOOLEAN
    }

    open spec fn complete(value: bool) -> bool {
        true
    }

    open spec fn encodable(value: bool) -> bool {
        true
    }

    open spec fn conforms(value: bool, type_length: int) -> bool {
        true
    }

    open spec fn plain_bytes(values: Seq<bool>, order: ByteOrder) -> Seq<u8> {
        Seq::empty()
    }

    open spec fn plain_bits(values: Seq<bool>) -> Seq<bool> {
        values
    }

    open spec fn ready(cursor: CursorView) -> bool {
        true
    }

    open spec fn skipped(cursor: CursorView, count: nat) -> Option<CursorView> {
        bits_skipped(cursor, count)
    }

    open spec fn decoded(cursor: CursorView, count: nat) -> Option<(Seq<bool>, CursorView)> {
        bits_decoded(cursor, count)
    }

    open spec fn dict_size(value: bool) -> (nat, nat) {
        (1, 1)
    }

    open spec fn variable_length(values: Seq<bool>) -> Option<int> {
        None
    }

    open spec fn as_integer(value: bool) -> Option<int> {
        Some(
            if value {
                1
            } else {
                0
            },
        )
    }

    open spec fn held_bytes(value: bool) -> Option<Seq<u8>> {
        None
    }

    open spec fn erased(value: bool) -> ValueView {
        ValueView::Boolean(value)
    }

    proof fn lemma_erased(left: bool, right: bool) {
    }

    proof fn lemma_ready(cursor: CursorView) {
    }

    proof fn lemma_skip_as_decode(cursor: CursorView, count: nat) {
        lemma_bits_skip_as_decode(cursor, count);
    }

    proof fn lemma_round_trip(values: Seq<bool>, cursor: CursorView) {
        assert(Seq::<u8>::empty() + packed(values) =~= packed(values));
        lemma_bits_round_trip(values, cursor);
    }

    fn physical_type_tag() -> (tag: Type) {
        Type::BOOLEAN
    }

    fn encode(values: &[Self], order: ByteOrder, writer: &mut Vec<u8>, bit_writer: &mut BitWriter) {
        bits_encode(values, bit_writer);
        assert(views(values@) =~= values@);
        assert(writer@ + Seq::<u8>::empty() =~= writer@);
    }

    fn set_data(decoder: &mut PlainDecoderDetails, data: Bytes, num_values: usize) {
        decoder.set_data(data, num_values);
    }

    fn decode(buffer: &mut [Self], decoder: &mut PlainDecoderDetails) -> (result: Result<
        usize,
        CodecError,
    >) {
        let ghost before = buffer@;
        let result = bits_decode(buffer, decoder);
        proof {
            assert(views(buffer@) =~= buffer@);
            assert(views(before) =~= before);
        }
        result
    }

    fn skip(decoder: &mut PlainDecoderDetails, num_values: usize) -> (result: Result<
        usize,
        CodecError,
    >) {
        bits_skip(decoder, num_values)
    }

    fn dict_encoding_size(&self) -> (size: (usize, usize)) {
        (1, 1)
    }

    fn variable_length_bytes(values: &[Self]) -> (total: Option<i64>) {
        None
    }

    fn as_i64(&self) -> (result: Result<i64, CodecError>) {
        if *self {
            Ok(1)
        } else {
            Ok(0)
        }
    }

    fn as_u64(&self) -> (result: Result<u64, CodecError>) {
        if *self {
            Ok(1)
        } else {
            Ok(0)
        }
    }

    fn heap_size(&self) -> (size: usize) {
        0
    }

    fn into_value(self) -> (erased: PhysicalValue) {
        PhysicalValue::Boolean(self)
    }

    fn from_value(value: PhysicalValue) -> (typed: Result<Self, PhysicalValue>) {
        match value {
            PhysicalValue::Boolean(own) => Ok(own),
            other => Err(other),
        }
    }
}

/// The sum of the lengths of `values`; a value without data counts as empty.
pub open spec fn total_length(values: Seq<Option<Seq<u8>>>) -> int
    decreases values.len(),
{
    if values.len() == 0 {
        0
    } else {
        total_length(values.drop_last()) + match values.last() {
            Some(bytes) => bytes.len() as int,
            None => 0,
        }
    }
}

/// The sum of the lengths of the first values is no more than that of all.
pub proof fn lemma_total_length_grows(values: Seq<Option<Seq<u8>>>, count: int)
    requires
        0 <= count <= values.len(),
    ensures
        0 <= total_length(values.take(count)) <= total_length(values),
    decreases values.len() - count,
{
    if count < values.len() {
        lemma_total_length_grows(values, count + 1);
        assert(values.take(count + 1).drop_last() =~= values.take(count));
        lemma_total_length_nonnegative(values.take(count));
    } else {
        assert(values.take(count) =~= values);
        lemma_total_length_nonnegative(values);
    }
}

/// A sum of lengths is not negative.
pub proof fn lemma_total_length_nonnegative(values: Seq<Option<Seq<u8>>>)
    ensures
        0 <= total_length(values),
    decreases values.len(),
{
    if values.len() > 0 {
        lemma_total_length_nonnegative(values.drop_last());
    }
}

impl ParquetValueType for ByteArray {
    open spec fn physical_type() -> Type {
        Type::BYTE_ARRAY
    }

    open spec fn complete(value: Option<Seq<u8>>) -> bool {
        value is Some
    }

    open spec fn encodable(value: Option<Seq<u8>>) -> bool {
        prefixable(value)
    }

    open spec fn conforms(value: Option<Seq<u8>>, type_length: int) -> bool {
        true
    }

    open spec fn plain_bytes(values: Seq<Option<Seq<u8>>>, order: ByteOrder) -> Seq<u8> {
        prefixed_bytes(values, order)
    }

    open spec fn plain_bits(values: Seq<Option<Seq<u8>>>) -> Seq<bool> {
        Seq::empty()
    }

    open spec fn ready(cursor: CursorView) -> bool {
        cursor.bit_offset == 0
    }

    open spec fn skipped(cursor: CursorView, count: nat) -> Option<CursorView> {
        prefixed_skipped(cursor, count)
    }

    open spec fn decoded(cursor: CursorView, count: nat) -> Option<
        (Seq<Option<Seq<u8>>>, CursorView),
    > {
        prefixed_decoded(cursor, count)
    }

    open spec fn dict_size(value: Option<Seq<u8>>) -> (nat, nat) {
        (4, value->0.len())
    }

    open spec fn variable_length(values: Seq<Option<Seq<u8>>>) -> Option<int> {
        Some(total_length(values))
    }

    open spec fn as_integer(value: Option<Seq<u8>>) -> Option<int> {
        None
    }

    open spec fn held_bytes(value: Option<Seq<u8>>) -> Option<Seq<u8>> {
        value
    }

    open spec fn erased(value: Option<Seq<u8>>) -> ValueView {
        ValueView::ByteArray(value)
    }

    proof fn lemma_erased(left: Option<Seq<u8>>, right: Option<Seq<u8>>) {
    }

    proof fn lemma_ready(cursor: CursorView) {
    }

    proof fn lemma_skip_as_decode(cursor: CursorView, count: nat) {
        lemma_prefixed_skip_as_decode(cursor, count);
    }

    proof fn lemma_round_trip(values: Seq<Option<Seq<u8>>>, cursor: CursorView) {
        let bytes = prefixed_bytes(values, cursor.order);
        assert(packed(Seq::<bool>::empty()) =~= Seq::<u8>::empty());
        assert(bytes + Seq::<u8>::empty() =~= bytes);
        lemma_prefixed_round_trip(values, cursor);
    }

    fn physical_type_tag() -> (tag: Type) {
        Type::BYTE_ARRAY
    }

    fn encode(values: &[Self], order: ByteOrder, writer: &mut Vec<u8>, bit_writer: &mut BitWriter) {
        prefixed_encode(values, order, writer);
        assert(bit_writer@ + Seq::<bool>::empty() =~= bit_writer@);
    }

    fn set_data(decoder: &mut PlainDecoderDetails, data: Bytes, num_values: usize) {
        decoder.set_data(data, num_values);
    }

    fn decode(buffer: &mut [Self], decoder: &mut PlainDecoderDetails) -> (result: Result<
        usize,
        CodecError,
    >) {
        proof {
            lemma_prefixed_values_end(
                decoder@.bytes(),
                decoder@.start as int,
                at_most(buffer@.len(), decoder@.num_values),
                decoder@.order,
            );
        }
        prefixed_decode(buffer, decoder)
    }

    fn skip(decoder: &mut PlainDecoderDetails, num_values: usize) -> (result: Result<
        usize,
        CodecError,
    >) {
        prefixed_skip(decoder, num_values)
    }

    fn dict_encoding_size(&self) -> (size: (usize, usize)) {
        (4, self.len())
    }

    fn variable_length_bytes(values: &[Self]) -> (total: Option<i64>) {
        let mut sum: i64 = 0;
        let mut i: usize = 0;
        proof {
            assert(views(values@).take(0) =~= Seq::<Option<Seq<u8>>>::empty());
        }
        while i < values.len()
            invariant
                i <= values.len(),
                forall|i: int| 0 <= i < values@.len() ==> (#[trigger] values@[i]@) is Some,
                total_length(views(values@)) <= i64::MAX,
                sum == total_length(views(values@).take(i as int)),
            decreases values.len() - i,
        {
            proof {
                lemma_total_length_grows(views(values@), i as int);
                lemma_total_length_grows(views(values@), i + 1);
                assert(views(values@).take(i + 1).drop_last() =~= views(values@).take(i as int));
                assert(views(values@).take(i + 1).last() == values@[i as int]@);
            }
            sum = sum + values[i].len() as i64;
            i += 1;
        }
        assert(views(values@).take(values@.len() as int) =~= views(values@));
        Some(sum)
    }

    fn as_i64(&self) -> (result: Result<i64, CodecError>) {
        Err(CodecError::TypeMismatch)
    }

    fn as_u64(&self) -> (result: Result<u64, CodecError>) {
        Err(CodecError::TypeMismatch)
    }

    fn heap_size(&self) -> (size: usize) {
        ByteArray::heap_size(self)
    }

    fn into_value(self) -> (erased: PhysicalValue) {
        PhysicalValue::ByteArray(self)
    }

    fn from_value(value: PhysicalValue) -> (typed: Result<Self, PhysicalValue>) {
        match value {
            PhysicalValue::ByteArray(own) => Ok(own),
            other => Err(other),
        }
    }
}

impl BytesBacked for ByteArray {
    fn set_from_bytes(&mut self, data: Bytes) {
        self.set_data(data);
    }
}

impl ParquetValueType for FixedLenByteArray {
    open spec fn physical_type() -> Type {
        Type::FIXED_LEN_BYTE_ARRAY
    }

    open spec fn complete(value: Option<Seq<u8>>) -> bool {
        value is Some
    }

    open spec fn encodable(value: Option<Seq<u8>>) -> bool {
        value is Some
    }

    open spec fn conforms(value: Option<Seq<u8>>, type_length: int) -> bool {
        of_length(value, type_length)
    }

    open spec fn plain_bytes(values: Seq<Option<Seq<u8>>>, order: ByteOrder) -> Seq<u8> {
        raw_bytes(values)
    }

    open spec fn plain_bits(values: Seq<Option<Seq<u8>>>) -> Seq<bool> {
        Seq::empty()
    }

    open spec fn ready(cursor: CursorView) -> bool {
        cursor.bit_offset == 0 && cursor.type_length > 0
    }

    open spec fn skipped(cursor: CursorView, count: nat) -> Option<CursorView> {
        raw_skipped(cursor, count)
    }

    open spec fn decoded(cursor: CursorView, count: nat) -> Option<
        (Seq<Option<Seq<u8>>>, CursorView),
    > {
        raw_decoded(cursor, count)
    }

    open spec fn dict_size(value: Option<Seq<u8>>) -> (nat, nat) {
        (4, value->0.len())
    }

    open spec fn variable_length(values: Seq<Option<Seq<u8>>>) -> Option<int> {
        Some(total_length(values))
    }

    open spec fn as_integer(value: Option<Seq<u8>>) -> Option<int> {
        None
    }

    open spec fn held_bytes(value: Option<Seq<u8>>) -> Option<Seq<u8>> {
        value
    }

    open spec fn erased(value: Option<Seq<u8>>) -> ValueView {
        ValueView::FixedLenByteArray(value)
    }

    proof fn lemma_erased(left: Option<Seq<u8>>, right: Option<Seq<u8>>) {
    }

    proof fn lemma_ready(cursor: CursorView) {
    }

    proof fn lemma_skip_as_decode(cursor: CursorView, count: nat) {
        lemma_raw_skip_as_decode(cursor, count);
    }

    proof fn lemma_round_trip(values: Seq<Option<Seq<u8>>>, cursor: CursorView) {
        let bytes = raw_bytes(values);
        assert(packed(Seq::<bool>::empty()) =~= Seq::<u8>::empty());
        assert(bytes + Seq::<u8>::empty() =~= bytes);
        lemma_raw_bytes_layout(values, cursor.type_length);
        lemma_raw_round_trip(values, cursor);
    }

    fn physical_type_tag() -> (tag: Type) {
        Type::FIXED_LEN_BYTE_ARRAY
    }

    fn encode(values: &[Self], order: ByteOrder, writer: &mut Vec<u8>, bit_writer: &mut BitWriter) {
        raw_encode(values, writer);
        assert(bit_writer@ + Seq::<bool>::empty() =~= bit_writer@);
    }

    fn set_data(decoder: &mut PlainDecoderDetails, data: Bytes, num_values: usize) {
        decoder.set_data(data, num_values);
    }

    fn decode(buffer: &mut [Self], decoder: &mut PlainDecoderDetails) -> (result: Result<
        usize,
        CodecError,
    >) {
        raw_decode(buffer, decoder)
    }

    fn skip(decoder: &mut PlainDecoderDetails, num_values: usize) -> (result: Result<
        usize,
        CodecError,
    >) {
        raw_skip(decoder, num_values)
    }

    fn dict_encoding_size(&self) -> (size: (usize, usize)) {
        (4, self.len())
    }

    fn variable_length_bytes(values: &[Self]) -> (total: Option<i64>) {
        let mut sum: i64 = 0;
        let mut i: usize = 0;
        proof {
            assert(views(values@).take(0) =~= Seq::<Option<Seq<u8>>>::empty());
        }
        while i < values.len()
            invariant
                i <= values.len(),
                forall|i: int| 0 <= i < values@.len() ==> (#[trigger] values@[i]@) is Some,
                total_length(views(values@)) <= i64::MAX,
                sum == total_length(views(values@).take(i as int)),
            decreases values.len() - i,
        {
            let value: &ByteArray = &values[i];
            proof {
                lemma_total_length_grows(views(values@), i as int);
                lemma_total_length_grows(views(values@), i + 1);
                assert(views(values@).take(i + 1).drop_last() =~= views(values@).take(i as int));
                assert(views(values@).take(i + 1).last() == values@[i as int]@);
                assert(value@ == values@[i as int]@);
            }
            sum = sum + value.len() as i64;
            i += 1;
        }
        assert(views(values@).take(values@.len() as int) =~= views(values@));
        Some(sum)
    }

    fn as_i64(&self) -> (result: Result<i64, CodecError>) {
        Err(CodecError::TypeMismatch)
    }

    fn as_u64(&self) -> (result: Result<u64, CodecError>) {
        Err(CodecError::TypeMismatch)
    }

    fn heap_size(&self) -> (size: usize) {
        ByteArray::heap_size(self)
    }

    fn into_value(self) -> (erased: PhysicalValue) {
        PhysicalValue::FixedLenByteArray(self)
    }

    fn from_value(value: PhysicalValue) -> (typed: Result<Self, PhysicalValue>) {
        match value {
            PhysicalValue::FixedLenByteArray(own) => Ok(own),
            other => Err(other),
        }
    }
}

impl BytesBacked for FixedLenByteArray {
    fn set_from_bytes(&mut self, data: Bytes) {
        FixedLenByteArray::set_data(self, data);
    }
}

/// Encodes `values` with numbers in the byte order of this machine, which
/// is one of the two.
pub fn encode_native<T: ParquetValueType>(
    values: &[T],
    writer: &mut Vec<u8>,
    bit_writer: &mut BitWriter,
)
    requires
        old(bit_writer).wf(),
        forall|i: int| 0 <= i < values@.len() ==> T::encodable(#[trigger] values@[i]@),
    ensures
        final(bit_writer).wf(),
        final(bit_writer)@ == old(bit_writer)@ + T::plain_bits(views(values@)),
        final(writer)@ == old(writer)@ + T::plain_bytes(views(values@), ByteOrder::Little)
            || final(writer)@ == old(writer)@ + T::plain_bytes(views(values@), ByteOrder::Big),
{
    let order = native_byte_order();
    T::encode(values, order, writer, bit_writer);
}

/// A physical type together with the type of its values.
pub trait DataType {
    /// The type of the values.
    type T: ParquetValueType;

    /// The number of bytes of a value in memory.
    spec fn type_size() -> nat;

    /// The wire-level kind of the type.
    fn get_physical_type() -> (tag: Type)
        ensures
            tag == <Self::T as ParquetValueType>::physical_type(),
    {
        <Self::T as ParquetValueType>::physical_type_tag()
    }

    /// The number of bytes of a value in memory.
    fn get_type_size() -> (size: usize)
        ensures
            size == Self::type_size(),
    ;
}

/// The physical type of booleans.
#[derive(Clone, Copy, Debug)]
pub struct BoolType {}

/// The physical type of 32-bit integers.
#[derive(Clone, Copy, Debug)]
pub struct Int32Type {}

/// The physical type of 64-bit integers.
#[derive(Clone, Copy, Debug)]
pub struct Int64Type {}

/// The physical type of 96-bit timestamps.
#[derive(Clone, Copy, Debug)]
pub struct Int96Type {}

/// The physical type of single precision numbers.
#[derive(Clone, Copy, Debug)]
pub struct FloatType {}

/// The physical type of double precision numbers.
#[derive(Clone, Copy, Debug)]
pub struct DoubleType {}

/// The physical type of byte arrays of any length.
#[derive(Clone, Copy, Debug)]
pub struct ByteArrayType {}

/// The physical type of byte arrays of the length that the column fixes.
#[derive(Clone, Copy, Debug)]
pub struct FixedLenByteArrayType {}

impl DataType for BoolType {
    type T = bool;

    open spec fn type_size() -> nat {
        1
    }

    fn get_type_size() -> (size: usize) {
        1
    }
}

impl DataType for Int32Type {
    type T = i32;

    open spec fn type_size() -> nat {
        4
    }

    fn get_type_size() -> (size: usize) {
        4
    }
}

impl DataType for Int64Type {
    type T = i64;

    open spec fn type_size() -> nat {
        8
    }

    fn get_type_size() -> (size: usize) {
        8
    }
}

impl DataType for Int96Type {
    type T = Int96;

    open spec fn type_size() -> nat {
        12
    }

    fn get_type_size() -> (size: usize) {
        12
    }
}

impl DataType for FloatType {
    type T = FloatBits;

    open spec fn type_size() -> nat {
        4
    }

    fn get_type_size() -> (size: usize) {
        4
    }
}

impl DataType for DoubleType {
    type T = DoubleBits;

    open spec fn type_size() -> nat {
        8
    }

    fn get_type_size() -> (size: usize) {
        8
    }
}

impl DataType for ByteArrayType {
    type T = ByteArray;

    open spec fn type_size() -> nat {
        vstd::layout::size_of::<ByteArray>()
    }

    fn get_type_size() -> (size: usize) {
        core::mem::size_of::<ByteArray>()
    }
}

impl DataType for FixedLenByteArrayType {
    type T = FixedLenByteArray;

    open spec fn type_size() -> nat {
        vstd::layout::size_of::<FixedLenByteArray>()
    }

    fn get_type_size() -> (size: usize) {
        core::mem::size_of::<FixedLenByteArray>()
    }
}

} // verus!
