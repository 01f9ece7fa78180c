use bytes::Bytes;
use parquet_types::bit_packed::BitWriter;
use parquet_types::byte_array::{ByteArray, FixedLenByteArray};
use parquet_types::byte_order::{ByteOrder, native_byte_order};
use parquet_types::cursor::PlainDecoderDetails;
use parquet_types::data_type::{
    BoolType, ByteArrayType, BytesBacked, DataType, DoubleType, FixedLenByteArrayType, FloatType,
    Int32Type, Int64Type, Int96Type, ParquetValueType, PhysicalValue, Type, encode_native,
};
use parquet_types::errors::CodecError;
use parquet_types::int96::Int96;
use parquet_types::scalars::{DoubleBits, FloatBits};

const ORDERS: [ByteOrder; 2] = [ByteOrder::Little, ByteOrder::Big];

fn encoded<T: ParquetValueType>(values: &[T], order: ByteOrder) -> Vec<u8> {
    let mut writer = Vec::new();
    let mut bit_writer = BitWriter::new();
    T::encode(values, order, &mut writer, &mut bit_writer);
    let bits = bit_writer.consume();
    assert!(writer.is_empty() || bits.is_empty());
    writer.extend_from_slice(&bits);
    writer
}

fn armed<T: ParquetValueType>(
    data: &[u8],
    num_values: usize,
    type_length: i32,
    order: ByteOrder,
) -> PlainDecoderDetails {
    let mut cursor = PlainDecoderDetails::with_byte_order(type_length, order);
    T::set_data(&mut cursor, Bytes::from(data.to_vec()), num_values);
    cursor
}

fn state(cursor: &PlainDecoderDetails) -> (usize, usize, usize) {
    (cursor.start(), cursor.bit_offset(), cursor.num_values())
}

fn round_trip<T: ParquetValueType + Clone + PartialEq + std::fmt::Debug>(
    values: &[T],
    blank: T,
    type_length: i32,
) {
    for order in ORDERS {
        let data = encoded(values, order);
        let mut cursor = armed::<T>(&data, values.len(), type_length, order);
        let mut buffer = vec![blank.clone(); values.len()];
        assert_eq!(T::decode(&mut buffer, &mut cursor), Ok(values.len()));
        assert_eq!(buffer.as_slice(), values);
        assert_eq!(cursor.num_values(), 0);

        let mut skipping = armed::<T>(&data, values.len(), type_length, order);
        assert_eq!(T::skip(&mut skipping, values.len()), Ok(values.len()));
        assert_eq!(state(&skipping), state(&cursor));
    }
}

#[test]
fn int32_round_trip() {
    round_trip(&[0, 1, -1, i32::MAX, i32::MIN, 0x0102_0304], 0i32, 0);
    round_trip::<i32>(&[], 0, 0);
}

#[test]
fn int64_round_trip() {
    round_trip(&[0, 1, -1, i64::MAX, i64::MIN, 0x0102_0304_0506_0708], 0i64, 0);
}

#[test]
fn float_round_trip_keeps_every_bit() {
    let values: Vec<FloatBits> = [
        0.0f32,
        -0.0,
        1.5,
        f32::INFINITY,
        f32::NAN,
        f32::from_bits(0x7fc0_0001),
        f32::from_bits(0xffa0_0000),
        f32::MIN_POSITIVE,
    ]
    .iter()
    .map(|value| FloatBits(value.to_bits()))
    .collect();
    round_trip(&values, FloatBits(0), 0);
}

#[test]
fn double_round_trip_keeps_every_bit() {
    let values: Vec<DoubleBits> = [
        0.0f64,
        -0.0,
        2.25,
        f64::NEG_INFINITY,
        f64::NAN,
        f64::from_bits(0x7ff8_0000_0000_0001),
        f64::from_bits(0xfff4_0000_0000_0000),
    ]
    .iter()
    .map(|value| DoubleBits(value.to_bits()))
    .collect();
    round_trip(&values, DoubleBits(0), 0);
}

#[test]
fn int96_round_trip() {
    let values = vec![
        Int96::from(vec![1, 2, 3]),
        Int96::from(vec![u32::MAX, 0, 0x8000_0000]),
        Int96::new(),
    ];
    round_trip(&values, Int96::new(), 0);
}

#[test]
fn byte_array_round_trip() {
    let values = vec![
        ByteArray::from("hello"),
        ByteArray::from(Vec::<u8>::new()),
        ByteArray::from(vec![0u8, 255, 1]),
        ByteArray::from(vec![9u8; 300]),
    ];
    round_trip(&values, ByteArray::new(), 0);
}

#[test]
fn fixed_len_byte_array_round_trip() {
    let values = vec![
        FixedLenByteArray::from(vec![1u8, 2, 3]),
        FixedLenByteArray::from(vec![4u8, 5, 6]),
        FixedLenByteArray::from(vec![0u8, 0, 0]),
    ];
    round_trip(&values, FixedLenByteArray::default(), 3);
}

#[test]
fn bool_round_trip() {
    for count in 0..20 {
        let values: Vec<bool> = (0..count).map(|i| i % 3 == 0 || i == 7).collect();
        round_trip(&values, false, 0);
    }
}

#[test]
fn int32_wire_bytes() {
    assert_eq!(
        encoded(&[1i32, -2, 0x0102_0304], ByteOrder::Little),
        [1, 0, 0, 0, 0xfe, 0xff, 0xff, 0xff, 4, 3, 2, 1]
    );
    assert_eq!(
        encoded(&[1i32, -2, 0x0102_0304], ByteOrder::Big),
        [0, 0, 0, 1, 0xff, 0xff, 0xff, 0xfe, 1, 2, 3, 4]
    );
}

#[test]
fn int64_wire_bytes() {
    assert_eq!(
        encoded(&[0x0102_0304_0506_0708i64], ByteOrder::Little),
        [8, 7, 6, 5, 4, 3, 2, 1]
    );
    assert_eq!(
        encoded(&[-1i64, 2], ByteOrder::Big),
        [0xff, 0xff, 0xff, 0xff, 0xff, 0xff, 0xff, 0xff, 0, 0, 0, 0, 0, 0, 0, 2]
    );
}

#[test]
fn float_and_double_wire_bytes_are_their_bits() {
    assert_eq!(
        encoded(&[FloatBits(1.0f32.to_bits())], ByteOrder::Little),
        1.0f32.to_le_bytes()
    );
    assert_eq!(
        encoded(&[FloatBits(1.0f32.to_bits())], ByteOrder::Big),
        1.0f32.to_be_bytes()
    );
    assert_eq!(
        encoded(&[DoubleBits((-2.5f64).to_bits())], ByteOrder::Little),
        (-2.5f64).to_le_bytes()
    );
    assert_eq!(
        encoded(&[DoubleBits((-2.5f64).to_bits())], ByteOrder::Big),
        (-2.5f64).to_be_bytes()
    );
}

#[test]
fn int96_wire_bytes_are_little_endian_words_in_either_order() {
    let values = [Int96::from(vec![1, 0x0203, 0x0405_0607])];
    let expected = [1, 0, 0, 0, 3, 2, 0, 0, 7, 6, 5, 4];
    assert_eq!(encoded(&values, ByteOrder::Little), expected);
    assert_eq!(encoded(&values, ByteOrder::Big), expected);
}

#[test]
fn byte_array_wire_bytes_have_a_length_prefix() {
    let values = [ByteArray::from("ab"), ByteArray::from(""), ByteArray::from("c")];
    assert_eq!(
        encoded(&values, ByteOrder::Little),
        [2, 0, 0, 0, b'a', b'b', 0, 0, 0, 0, 1, 0, 0, 0, b'c']
    );
    assert_eq!(
        encoded(&values, ByteOrder::Big),
        [0, 0, 0, 2, b'a', b'b', 0, 0, 0, 0, 0, 0, 0, 1, b'c']
    );
}

#[test]
fn fixed_len_byte_array_wire_bytes_are_the_data() {
    let values = [FixedLenByteArray::from(vec![1u8, 2]), FixedLenByteArray::from(vec![3u8, 4])];
    assert_eq!(encoded(&values, ByteOrder::Little), [1, 2, 3, 4]);
    assert_eq!(encoded(&values, ByteOrder::Big), [1, 2, 3, 4]);
}

#[test]
fn bools_are_packed_least_significant_bit_first() {
    let values = [true, false, false, false, false, false, false, false, false, true, true];
    assert_eq!(encoded(&values, ByteOrder::Little), [0b0000_0001, 0b0000_0110]);
    assert_eq!(encoded(&values, ByteOrder::Big), [0b0000_0001, 0b0000_0110]);
    assert_eq!(encoded(&[true; 8], ByteOrder::Little), [0xff]);
    assert_eq!(encoded(&[false, true], ByteOrder::Little), [0b0000_0010]);
    assert_eq!(encoded::<bool>(&[], ByteOrder::Little), Vec::<u8>::new());
}

#[test]
fn bit_writer_collects_bits() {
    let mut writer = BitWriter::new();
    assert_eq!(writer.bytes_written(), 0);
    for bit in [true, true, false, true, false, false, false, true] {
        writer.put_bit(bit);
    }
    assert_eq!(writer.bytes_written(), 1);
    writer.put_bit(true);
    assert_eq!(writer.bytes_written(), 1);
    assert_eq!(writer.consume(), [0b1000_1011, 0b0000_0001]);
    assert_eq!(BitWriter::new().consume(), Vec::<u8>::new());
}

#[test]
fn encode_appends_to_the_writer() {
    let mut writer = vec![0xaa];
    let mut bit_writer = BitWriter::new();
    i32::encode(&[1], ByteOrder::Big, &mut writer, &mut bit_writer);
    i32::encode(&[2], ByteOrder::Big, &mut writer, &mut bit_writer);
    assert_eq!(writer, [0xaa, 0, 0, 0, 1, 0, 0, 0, 2]);
    assert_eq!(bit_writer.consume(), Vec::<u8>::new());

    let mut bit_writer = BitWriter::new();
    bool::encode(&[true], ByteOrder::Big, &mut writer, &mut bit_writer);
    bool::encode(&[false, true], ByteOrder::Big, &mut writer, &mut bit_writer);
    assert_eq!(writer.len(), 9);
    assert_eq!(bit_writer.consume(), [0b0000_0101]);
}

#[test]
fn encode_native_uses_the_byte_order_of_the_machine() {
    let mut writer = Vec::new();
    let mut bit_writer = BitWriter::new();
    encode_native(&[0x0102_0304i32, -5], &mut writer, &mut bit_writer);
    let mut expected = Vec::new();
    expected.extend_from_slice(&0x0102_0304i32.to_ne_bytes());
    expected.extend_from_slice(&(-5i32).to_ne_bytes());
    assert_eq!(writer, expected);
    assert_eq!(writer, encoded(&[0x0102_0304i32, -5], native_byte_order()));

    let order = if u16::from_ne_bytes([1, 0]) == 1 {
        ByteOrder::Little
    } else {
        ByteOrder::Big
    };
    assert_eq!(native_byte_order(), order);
    assert_eq!(PlainDecoderDetails::new(0).byte_order(), order);
}

#[test]
fn byte_array_prefix_written_by_the_machine_is_read_back() {
    let mut writer = Vec::new();
    let mut bit_writer = BitWriter::new();
    encode_native(&[ByteArray::from("xyz")], &mut writer, &mut bit_writer);
    let mut expected = 3u32.to_ne_bytes().to_vec();
    expected.extend_from_slice(b"xyz");
    assert_eq!(writer, expected);

    let mut cursor = PlainDecoderDetails::new(0);
    <ByteArray as ParquetValueType>::set_data(&mut cursor, Bytes::from(writer), 1);
    let mut buffer = vec![ByteArray::new()];
    assert_eq!(ByteArray::decode(&mut buffer, &mut cursor), Ok(1));
    assert_eq!(buffer[0].data(), b"xyz");
}

#[test]
fn new_cursor_has_no_data() {
    let cursor = PlainDecoderDetails::new(16);
    assert!(!cursor.has_data());
    assert_eq!(cursor.type_length(), 16);
    assert_eq!(state(&cursor), (0, 0, 0));
    assert_eq!(cursor.bytes(), &[] as &[u8]);

    let cursor = PlainDecoderDetails::with_byte_order(-1, ByteOrder::Big);
    assert_eq!(cursor.byte_order(), ByteOrder::Big);
    assert_eq!(cursor.type_length(), -1);
}

#[test]
fn set_data_rearms_the_cursor() {
    let mut cursor = armed::<i32>(&[1, 0, 0, 0, 2, 0, 0, 0], 2, 7, ByteOrder::Little);
    assert!(cursor.has_data());
    assert_eq!(state(&cursor), (0, 0, 2));
    assert_eq!(i32::skip(&mut cursor, 1), Ok(1));
    assert_eq!(state(&cursor), (4, 0, 1));
    i32::set_data(&mut cursor, Bytes::from(vec![9u8, 0, 0, 0]), 5);
    assert_eq!(state(&cursor), (0, 0, 5));
    assert_eq!(cursor.bytes(), &[9, 0, 0, 0]);
    assert_eq!(cursor.type_length(), 7);
    assert_eq!(cursor.byte_order(), ByteOrder::Little);
    assert_eq!(cursor.share(1, 3).as_ref(), &[0, 0]);
}

#[test]
fn decode_takes_the_smaller_of_buffer_and_remaining() {
    let data = encoded(&[10i32, 20, 30, 40], ByteOrder::Little);

    let mut cursor = armed::<i32>(&data, 4, 0, ByteOrder::Little);
    let mut buffer = [0i32; 3];
    assert_eq!(i32::decode(&mut buffer, &mut cursor), Ok(3));
    assert_eq!(buffer, [10, 20, 30]);
    assert_eq!(state(&cursor), (12, 0, 1));
    // One value remains: the rest of the buffer stays as it was.
    let mut buffer = [7i32; 3];
    assert_eq!(i32::decode(&mut buffer, &mut cursor), Ok(1));
    assert_eq!(buffer, [40, 7, 7]);
    assert_eq!(state(&cursor), (16, 0, 0));
    // Nothing remains.
    assert_eq!(i32::decode(&mut buffer, &mut cursor), Ok(0));
    assert_eq!(buffer, [40, 7, 7]);
    assert_eq!(i32::skip(&mut cursor, 9), Ok(0));
    assert_eq!(state(&cursor), (16, 0, 0));

    // The count of values bounds decoding even where more bytes follow.
    let mut cursor = armed::<i32>(&data, 2, 0, ByteOrder::Little);
    let mut buffer = [0i32; 4];
    assert_eq!(i32::decode(&mut buffer, &mut cursor), Ok(2));
    assert_eq!(buffer, [10, 20, 0, 0]);
    // An empty buffer decodes nothing.
    let mut cursor = armed::<i32>(&data, 2, 0, ByteOrder::Little);
    assert_eq!(i32::decode(&mut [], &mut cursor), Ok(0));
    assert_eq!(state(&cursor), (0, 0, 2));
}

#[test]
fn skip_takes_the_smaller_of_count_and_remaining() {
    let data = encoded(&[10i64, 20, 30], ByteOrder::Big);
    let mut cursor = armed::<i64>(&data, 3, 0, ByteOrder::Big);
    assert_eq!(i64::skip(&mut cursor, 0), Ok(0));
    assert_eq!(i64::skip(&mut cursor, 2), Ok(2));
    assert_eq!(state(&cursor), (16, 0, 1));
    assert_eq!(i64::skip(&mut cursor, 5), Ok(1));
    assert_eq!(state(&cursor), (24, 0, 0));
}

#[test]
fn skip_then_decode_continues_where_skip_ended() {
    let data = encoded(
        &[ByteArray::from("one"), ByteArray::from("three"), ByteArray::from("22")],
        ByteOrder::Little,
    );
    let mut cursor = armed::<ByteArray>(&data, 3, 0, ByteOrder::Little);
    assert_eq!(ByteArray::skip(&mut cursor, 2), Ok(2));
    assert_eq!(state(&cursor), (4 + 3 + 4 + 5, 0, 1));
    let mut buffer = vec![ByteArray::new(); 2];
    assert_eq!(ByteArray::decode(&mut buffer, &mut cursor), Ok(1));
    assert_eq!(buffer[0], ByteArray::from("22"));
    assert_eq!(buffer[1], ByteArray::new());
    assert_eq!(state(&cursor), (data.len(), 0, 0));
}

#[test]
fn skip_and_decode_of_byte_arrays_move_the_cursor_alike() {
    let values: Vec<ByteArray> = (0..6usize).map(|i| ByteArray::from(vec![i as u8; i * 3])).collect();
    for order in ORDERS {
        let data = encoded(&values, order);
        for count in 0..=values.len() + 1 {
            let mut decoding = armed::<ByteArray>(&data, values.len(), 0, order);
            let mut skipping = armed::<ByteArray>(&data, values.len(), 0, order);
            let mut buffer = vec![ByteArray::new(); count];
            let decoded = ByteArray::decode(&mut buffer, &mut decoding);
            let skipped = ByteArray::skip(&mut skipping, count);
            assert_eq!(decoded, skipped);
            assert_eq!(decoded, Ok(count.min(values.len())));
            assert_eq!(state(&decoding), state(&skipping));
        }
    }
}

#[test]
fn short_fixed_width_data_is_unexpected_eof() {
    for order in ORDERS {
        let mut cursor = armed::<i32>(&[1, 2, 3, 4, 5, 6, 7], 2, 0, order);
        let mut buffer = [9i32; 2];
        assert_eq!(i32::decode(&mut buffer, &mut cursor), Err(CodecError::UnexpectedEof));
        assert_eq!(buffer, [9, 9]);
        assert_eq!(state(&cursor), (0, 0, 2));
        assert_eq!(i32::skip(&mut cursor, 2), Err(CodecError::UnexpectedEof));
        assert_eq!(state(&cursor), (0, 0, 2));
        // One value is there.
        assert_eq!(i32::skip(&mut cursor, 1), Ok(1));
        assert_eq!(i32::decode(&mut buffer, &mut cursor), Err(CodecError::UnexpectedEof));
        assert_eq!(state(&cursor), (4, 0, 1));
    }
    let mut cursor = armed::<i64>(&[0; 15], 2, 0, ByteOrder::Little);
    assert_eq!(i64::skip(&mut cursor, 2), Err(CodecError::UnexpectedEof));
    let mut cursor = armed::<FloatBits>(&[0; 3], 1, 0, ByteOrder::Little);
    assert_eq!(FloatBits::skip(&mut cursor, 1), Err(CodecError::UnexpectedEof));
    let mut cursor = armed::<DoubleBits>(&[0; 7], 1, 0, ByteOrder::Little);
    assert_eq!(
        DoubleBits::decode(&mut [DoubleBits(1)], &mut cursor),
        Err(CodecError::UnexpectedEof)
    );
    let mut cursor = armed::<Int96>(&[0; 23], 2, 0, ByteOrder::Little);
    let mut buffer = [Int96::from(vec![1, 1, 1]); 2];
    assert_eq!(Int96::decode(&mut buffer, &mut cursor), Err(CodecError::UnexpectedEof));
    assert_eq!(buffer, [Int96::from(vec![1, 1, 1]); 2]);
    assert_eq!(Int96::skip(&mut cursor, 2), Err(CodecError::UnexpectedEof));
    assert_eq!(state(&cursor), (0, 0, 2));
}

#[test]
fn a_count_whose_bytes_overflow_is_unexpected_eof() {
    let mut cursor = armed::<i64>(&[0; 64], usize::MAX, 0, ByteOrder::Little);
    assert_eq!(i64::skip(&mut cursor, usize::MAX), Err(CodecError::UnexpectedEof));
    assert_eq!(state(&cursor), (0, 0, usize::MAX));
    let mut cursor = armed::<FixedLenByteArray>(&[0; 64], usize::MAX, i32::MAX, ByteOrder::Little);
    assert_eq!(
        FixedLenByteArray::skip(&mut cursor, usize::MAX / 2),
        Err(CodecError::UnexpectedEof)
    );
    assert_eq!(state(&cursor), (0, 0, usize::MAX));
}

#[test]
fn short_byte_array_data_is_unexpected_eof() {
    let whole = encoded(&[ByteArray::from("ab"), ByteArray::from("cde")], ByteOrder::Little);
    for cut in 0..whole.len() {
        let mut cursor = armed::<ByteArray>(&whole[..cut], 2, 0, ByteOrder::Little);
        let mut buffer = vec![ByteArray::from("kept"), ByteArray::new()];
        assert_eq!(ByteArray::decode(&mut buffer, &mut cursor), Err(CodecError::UnexpectedEof));
        assert_eq!(buffer, vec![ByteArray::from("kept"), ByteArray::new()]);
        assert_eq!(state(&cursor), (0, 0, 2));
        assert_eq!(ByteArray::skip(&mut cursor, 2), Err(CodecError::UnexpectedEof));
        assert_eq!(state(&cursor), (0, 0, 2));
    }
    // A prefix that announces more bytes than any buffer holds.
    let mut cursor = armed::<ByteArray>(&[0xff, 0xff, 0xff, 0xff, 1], 1, 0, ByteOrder::Little);
    assert_eq!(ByteArray::skip(&mut cursor, 1), Err(CodecError::UnexpectedEof));
    assert_eq!(state(&cursor), (0, 0, 1));
}

#[test]
fn short_fixed_len_byte_array_data_is_unexpected_eof() {
    let mut cursor = armed::<FixedLenByteArray>(&[1, 2, 3, 4, 5], 2, 3, ByteOrder::Little);
    let mut buffer = vec![FixedLenByteArray::default(); 2];
    assert_eq!(
        FixedLenByteArray::decode(&mut buffer, &mut cursor),
        Err(CodecError::UnexpectedEof)
    );
    assert_eq!(buffer, vec![FixedLenByteArray::default(); 2]);
    assert_eq!(state(&cursor), (0, 0, 2));
    assert_eq!(FixedLenByteArray::skip(&mut cursor, 2), Err(CodecError::UnexpectedEof));
    assert_eq!(state(&cursor), (0, 0, 2));
    assert_eq!(FixedLenByteArray::decode(&mut buffer[..1], &mut cursor), Ok(1));
    assert_eq!(buffer[0].data(), &[1, 2, 3]);
    assert_eq!(state(&cursor), (3, 0, 1));
}

#[test]
fn short_bool_data_is_unexpected_eof() {
    let mut cursor = armed::<bool>(&[0b0101_0101], 9, 0, ByteOrder::Little);
    let mut buffer = [true; 9];
    assert_eq!(bool::decode(&mut buffer, &mut cursor), Err(CodecError::UnexpectedEof));
    assert_eq!(buffer, [true; 9]);
    assert_eq!(state(&cursor), (0, 0, 9));
    assert_eq!(bool::skip(&mut cursor, 9), Err(CodecError::UnexpectedEof));
    assert_eq!(state(&cursor), (0, 0, 9));
    assert_eq!(bool::decode(&mut buffer[..8], &mut cursor), Ok(8));
    assert_eq!(buffer[..8], [true, false, true, false, true, false, true, false]);
    assert_eq!(state(&cursor), (1, 0, 1));
    assert_eq!(bool::skip(&mut cursor, 1), Err(CodecError::UnexpectedEof));
}

#[test]
fn bools_are_decoded_bit_by_bit() {
    let mut cursor = armed::<bool>(&[0b1000_0011, 0b0000_0001], 10, 0, ByteOrder::Big);
    let mut buffer = [false; 3];
    assert_eq!(bool::decode(&mut buffer, &mut cursor), Ok(3));
    assert_eq!(buffer, [true, true, false]);
    assert_eq!(state(&cursor), (0, 3, 7));
    assert_eq!(bool::skip(&mut cursor, 4), Ok(4));
    assert_eq!(state(&cursor), (0, 7, 3));
    assert_eq!(bool::decode(&mut buffer, &mut cursor), Ok(3));
    assert_eq!(buffer, [true, true, false]);
    assert_eq!(state(&cursor), (1, 2, 0));
}

#[test]
fn decoded_byte_arrays_share_the_data() {
    let data = encoded(&[ByteArray::from("abc"), ByteArray::from("de")], ByteOrder::Big);
    let mut cursor = armed::<ByteArray>(&data, 2, 0, ByteOrder::Big);
    let mut buffer = vec![ByteArray::new(); 2];
    assert_eq!(ByteArray::decode(&mut buffer, &mut cursor), Ok(2));
    assert_eq!(buffer[0].data(), b"abc");
    assert_eq!(buffer[1].data(), b"de");
    assert_eq!(buffer[0].data().as_ptr(), cursor.bytes()[4..].as_ptr());
}

#[test]
fn physical_type_tags() {
    assert_eq!(bool::physical_type_tag(), Type::BOOLEAN);
    assert_eq!(i32::physical_type_tag(), Type::INT32);
    assert_eq!(i64::physical_type_tag(), Type::INT64);
    assert_eq!(Int96::physical_type_tag(), Type::INT96);
    assert_eq!(FloatBits::physical_type_tag(), Type::FLOAT);
    assert_eq!(DoubleBits::physical_type_tag(), Type::DOUBLE);
    assert_eq!(ByteArray::physical_type_tag(), Type::BYTE_ARRAY);
    assert_eq!(FixedLenByteArray::physical_type_tag(), Type::FIXED_LEN_BYTE_ARRAY);

    assert_eq!(BoolType::get_physical_type(), Type::BOOLEAN);
    assert_eq!(Int32Type::get_physical_type(), Type::INT32);
    assert_eq!(Int64Type::get_physical_type(), Type::INT64);
    assert_eq!(Int96Type::get_physical_type(), Type::INT96);
    assert_eq!(FloatType::get_physical_type(), Type::FLOAT);
    assert_eq!(DoubleType::get_physical_type(), Type::DOUBLE);
    assert_eq!(ByteArrayType::get_physical_type(), Type::BYTE_ARRAY);
    assert_eq!(FixedLenByteArrayType::get_physical_type(), Type::FIXED_LEN_BYTE_ARRAY);
}

#[test]
fn type_sizes() {
    assert_eq!(BoolType::get_type_size(), 1);
    assert_eq!(Int32Type::get_type_size(), 4);
    assert_eq!(Int64Type::get_type_size(), 8);
    assert_eq!(Int96Type::get_type_size(), 12);
    assert_eq!(FloatType::get_type_size(), 4);
    assert_eq!(DoubleType::get_type_size(), 8);
    assert_eq!(ByteArrayType::get_type_size(), std::mem::size_of::<ByteArray>());
    assert_eq!(
        FixedLenByteArrayType::get_type_size(),
        std::mem::size_of::<ByteArray>()
    );
}

#[test]
fn dict_encoding_sizes() {
    assert_eq!(true.dict_encoding_size(), (1, 1));
    assert_eq!(5i32.dict_encoding_size(), (4, 1));
    assert_eq!(5i64.dict_encoding_size(), (8, 1));
    assert_eq!(Int96::new().dict_encoding_size(), (12, 1));
    assert_eq!(FloatBits(0).dict_encoding_size(), (4, 1));
    assert_eq!(DoubleBits(0).dict_encoding_size(), (8, 1));
    assert_eq!(ByteArray::from("hello").dict_encoding_size(), (4, 5));
    assert_eq!(ByteArray::from("").dict_encoding_size(), (4, 0));
    assert_eq!(FixedLenByteArray::from(vec![1u8, 2]).dict_encoding_size(), (4, 2));
}

#[test]
fn variable_length_bytes_sums_the_lengths_of_byte_arrays() {
    let arrays = [ByteArray::from("ab"), ByteArray::from(""), ByteArray::from("cdefg")];
    assert_eq!(ByteArray::variable_length_bytes(&arrays), Some(7));
    assert_eq!(ByteArray::variable_length_bytes(&[]), Some(0));
    assert_eq!(
        FixedLenByteArray::variable_length_bytes(&[
            FixedLenByteArray::from(vec![1u8, 2]),
            FixedLenByteArray::from(vec![3u8, 4]),
        ]),
        Some(4)
    );
    assert_eq!(i32::variable_length_bytes(&[1, 2]), None);
    assert_eq!(i64::variable_length_bytes(&[1, 2]), None);
    assert_eq!(bool::variable_length_bytes(&[true]), None);
    assert_eq!(Int96::variable_length_bytes(&[Int96::new()]), None);
    assert_eq!(FloatBits::variable_length_bytes(&[FloatBits(1)]), None);
    assert_eq!(DoubleBits::variable_length_bytes(&[DoubleBits(1)]), None);
}

#[test]
fn integers_and_bools_convert_to_64_bits() {
    assert_eq!(true.as_i64(), Ok(1));
    assert_eq!(false.as_i64(), Ok(0));
    assert_eq!(true.as_u64(), Ok(1));
    assert_eq!(false.as_u64(), Ok(0));
    assert_eq!(7i32.as_i64(), Ok(7));
    assert_eq!((-7i32).as_i64(), Ok(-7));
    assert_eq!(i32::MIN.as_i64(), Ok(-2_147_483_648));
    assert_eq!(7i32.as_u64(), Ok(7));
    assert_eq!((-1i32).as_u64(), Ok(u64::MAX));
    assert_eq!((-7i32).as_u64(), Ok(u64::MAX - 6));
    assert_eq!(i64::MAX.as_i64(), Ok(i64::MAX));
    assert_eq!(i64::MIN.as_i64(), Ok(i64::MIN));
    assert_eq!(i64::MIN.as_u64(), Ok(1 << 63));
    assert_eq!(9i64.as_u64(), Ok(9));
}

#[test]
fn other_types_do_not_convert_to_integers() {
    assert_eq!(FloatBits(1).as_i64(), Err(CodecError::TypeMismatch));
    assert_eq!(FloatBits(1).as_u64(), Err(CodecError::TypeMismatch));
    assert_eq!(DoubleBits(1).as_i64(), Err(CodecError::TypeMismatch));
    assert_eq!(DoubleBits(1).as_u64(), Err(CodecError::TypeMismatch));
    assert_eq!(Int96::new().as_i64(), Err(CodecError::TypeMismatch));
    assert_eq!(Int96::new().as_u64(), Err(CodecError::TypeMismatch));
    assert_eq!(ByteArray::from("1").as_i64(), Err(CodecError::TypeMismatch));
    assert_eq!(ByteArray::from("1").as_u64(), Err(CodecError::TypeMismatch));
    assert_eq!(FixedLenByteArray::from(vec![1u8]).as_i64(), Err(CodecError::TypeMismatch));
    assert_eq!(FixedLenByteArray::from(vec![1u8]).as_u64(), Err(CodecError::TypeMismatch));
}

#[test]
fn heap_sizes() {
    assert_eq!(ParquetValueType::heap_size(&true), 0);
    assert_eq!(ParquetValueType::heap_size(&1i32), 0);
    assert_eq!(ParquetValueType::heap_size(&1i64), 0);
    assert_eq!(ParquetValueType::heap_size(&Int96::new()), 0);
    assert_eq!(ParquetValueType::heap_size(&FloatBits(1)), 0);
    assert_eq!(ParquetValueType::heap_size(&DoubleBits(1)), 0);
    assert_eq!(ParquetValueType::heap_size(&ByteArray::from("hello")), 5);
    assert_eq!(ParquetValueType::heap_size(&ByteArray::new()), 0);
    assert_eq!(ParquetValueType::heap_size(&FixedLenByteArray::from(vec![1u8, 2])), 2);
    assert_eq!(ParquetValueType::heap_size(&FixedLenByteArray::default()), 0);
}

#[test]
fn set_from_bytes_sets_the_data() {
    let mut array = ByteArray::new();
    array.set_from_bytes(Bytes::from(vec![1u8, 2, 3]));
    assert_eq!(array.data(), &[1, 2, 3]);
    let mut fixed = FixedLenByteArray::default();
    fixed.set_from_bytes(Bytes::from(vec![4u8, 5]));
    assert_eq!(fixed.data(), &[4, 5]);
}

#[test]
fn a_value_with_its_type_forgotten_keeps_its_kind() {
    assert_eq!(true.into_value().physical_type(), Type::BOOLEAN);
    assert_eq!(1i32.into_value().physical_type(), Type::INT32);
    assert_eq!(1i64.into_value().physical_type(), Type::INT64);
    assert_eq!(Int96::new().into_value().physical_type(), Type::INT96);
    assert_eq!(FloatBits(1).into_value().physical_type(), Type::FLOAT);
    assert_eq!(DoubleBits(1).into_value().physical_type(), Type::DOUBLE);
    assert_eq!(ByteArray::from("a").into_value().physical_type(), Type::BYTE_ARRAY);
    assert_eq!(
        FixedLenByteArray::from(vec![1u8]).into_value().physical_type(),
        Type::FIXED_LEN_BYTE_ARRAY
    );
}

#[test]
fn a_value_comes_back_as_its_own_type_only() {
    assert_eq!(i32::from_value(7i32.into_value()).ok(), Some(7));
    assert_eq!(bool::from_value(true.into_value()).ok(), Some(true));
    assert_eq!(i64::from_value((-7i64).into_value()).ok(), Some(-7));
    assert_eq!(
        Int96::from_value(Int96::from(vec![1, 2, 3]).into_value()).ok(),
        Some(Int96::from(vec![1, 2, 3]))
    );
    assert_eq!(FloatBits::from_value(FloatBits(9).into_value()).ok(), Some(FloatBits(9)));
    assert_eq!(DoubleBits::from_value(DoubleBits(9).into_value()).ok(), Some(DoubleBits(9)));
    assert_eq!(
        ByteArray::from_value(ByteArray::from("abc").into_value()).ok(),
        Some(ByteArray::from("abc"))
    );
    assert_eq!(
        FixedLenByteArray::from_value(FixedLenByteArray::from(vec![1u8]).into_value()).ok(),
        Some(FixedLenByteArray::from(vec![1u8]))
    );

    // A value of another kind is handed back.
    match i64::from_value(7i32.into_value()) {
        Err(PhysicalValue::Int32(7)) => {}
        other => panic!("{other:?}"),
    }
    match FloatBits::from_value(DoubleBits(1).into_value()) {
        Err(PhysicalValue::Double(DoubleBits(1))) => {}
        other => panic!("{other:?}"),
    }
    // The two kinds of byte arrays are kept apart.
    assert!(ByteArray::from_value(FixedLenByteArray::from(vec![1u8]).into_value()).is_err());
    assert!(FixedLenByteArray::from_value(ByteArray::from("a").into_value()).is_err());
    assert!(bool::from_value(1i32.into_value()).is_err());
    assert!(Int96::from_value(1i64.into_value()).is_err());
}
