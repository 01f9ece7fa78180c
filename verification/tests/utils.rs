use parquet_types::errors::{CodecError, InvalidReason, Requested, SliceEdge, overflow_error};
use parquet_types::utils::{
    array_from_slice, expect_size_of, first_byte_from_slice, slice_from_slice,
    slice_from_slice_at_offset, string_from_slice, text_from_utf8, try_binary_search_range_by,
};

fn out_of_bounds(start: usize, end: usize, len: usize) -> CodecError {
    CodecError::OutOfBounds { requested: Requested::Range { start, end }, len }
}

#[test]
fn slice_within_bounds_has_the_length_of_the_range() {
    let bytes = [10u8, 11, 12, 13, 14];
    assert_eq!(slice_from_slice(&bytes, 1..4), Ok(&bytes[1..4]));
    assert_eq!(slice_from_slice(&bytes, 1..4).unwrap().len(), 3);
    assert_eq!(slice_from_slice(&bytes, 0..5), Ok(&bytes[..]));
    assert_eq!(slice_from_slice(&bytes, 5..5), Ok(&bytes[5..]));
    assert_eq!(slice_from_slice(&bytes, 2..2).unwrap().len(), 0);
    for start in 0..=5 {
        for end in start..=5 {
            assert_eq!(slice_from_slice(&bytes, start..end).unwrap().len(), end - start);
        }
    }
}

#[test]
fn slice_out_of_bounds_is_an_error() {
    let bytes = [10u8, 11, 12, 13, 14];
    assert_eq!(
        slice_from_slice(&bytes, 2..6),
        Err(out_of_bounds(2, 6, 5))
    );
    assert_eq!(
        slice_from_slice(&bytes, 6..7),
        Err(out_of_bounds(6, 7, 5))
    );
    assert_eq!(
        slice_from_slice(&bytes, 3..2),
        Err(out_of_bounds(3, 2, 5))
    );
    assert_eq!(
        slice_from_slice(&[], 0..1),
        Err(out_of_bounds(0, 1, 0))
    );
}

#[test]
fn slice_at_an_index_is_a_byte() {
    let bytes = [10u8, 11, 12, 13, 14];
    assert_eq!(slice_from_slice(&bytes, 0usize), Ok(&10));
    assert_eq!(slice_from_slice(&bytes, 4usize), Ok(&14));
    assert_eq!(
        slice_from_slice(&bytes, 5usize),
        Err(CodecError::OutOfBounds { requested: Requested::Index(5), len: 5 })
    );
    assert_eq!(
        slice_from_slice(&[], usize::MAX),
        Err(CodecError::OutOfBounds { requested: Requested::Index(usize::MAX), len: 0 })
    );
}

#[test]
fn slice_at_offset_shifts_the_range() {
    let bytes = [10u8, 11, 12, 13, 14];
    assert_eq!(slice_from_slice_at_offset(&bytes, 2, 0..2), Ok(&bytes[2..4]));
    assert_eq!(slice_from_slice_at_offset(&bytes, 0, 1..5), Ok(&bytes[1..5]));
    assert_eq!(
        slice_from_slice_at_offset(&bytes, 3, 1..3),
        Err(out_of_bounds(4, 6, 5))
    );
}

#[test]
fn slice_at_offset_reports_overflow() {
    let bytes = [10u8, 11, 12, 13, 14];
    assert_eq!(
        slice_from_slice_at_offset(&bytes, usize::MAX, 0..1),
        Err(CodecError::Overflow(SliceEdge::End))
    );
    assert_eq!(
        slice_from_slice_at_offset(&bytes, usize::MAX, 1..2),
        Err(CodecError::Overflow(SliceEdge::Start))
    );
    assert_eq!(
        slice_from_slice_at_offset(&bytes, usize::MAX - 1, 1..2),
        Err(CodecError::Overflow(SliceEdge::End))
    );
    assert_eq!(
        slice_from_slice_at_offset(&bytes, 1, 0..usize::MAX),
        Err(CodecError::Overflow(SliceEdge::End))
    );
    // The largest sums that fit are out of bounds, not overflows.
    assert_eq!(
        slice_from_slice_at_offset(&bytes, usize::MAX - 1, 0..1),
        Err(out_of_bounds(usize::MAX - 1, usize::MAX, 5))
    );
    assert_eq!(overflow_error(SliceEdge::Start), CodecError::Overflow(SliceEdge::Start));
    assert_ne!(overflow_error(SliceEdge::Start), overflow_error(SliceEdge::End));
}

#[test]
fn array_from_slice_copies_a_fixed_number_of_bytes() {
    let bytes = [10u8, 11, 12, 13, 14];
    assert_eq!(array_from_slice::<2>(&bytes, 1), Ok([11, 12]));
    assert_eq!(array_from_slice::<5>(&bytes, 0), Ok([10, 11, 12, 13, 14]));
    assert_eq!(array_from_slice::<0>(&bytes, 5), Ok([]));
    assert_eq!(
        array_from_slice::<4>(&bytes, 2),
        Err(out_of_bounds(2, 6, 5))
    );
    assert_eq!(
        array_from_slice::<4>(&bytes, usize::MAX),
        Err(CodecError::Overflow(SliceEdge::End))
    );
}

#[test]
fn first_byte_needs_a_byte() {
    assert_eq!(first_byte_from_slice(&[7, 8]), Ok(7));
    assert_eq!(
        first_byte_from_slice(&[]),
        Err(CodecError::InvalidArgument(InvalidReason::EmptyBytes))
    );
}

#[test]
fn string_from_slice_validates_utf8() {
    let bytes = "xx héllo".as_bytes();
    assert_eq!(string_from_slice(bytes, 3, 0..6), Ok("héllo"));
    assert_eq!(string_from_slice(bytes, 0, 0..2), Ok("xx"));
    assert_eq!(string_from_slice(bytes, 0, 0..0), Ok(""));
    // The range ends inside the two bytes of the accented letter.
    assert_eq!(
        string_from_slice(bytes, 3, 0..2),
        Err(CodecError::InvalidArgument(InvalidReason::Utf8 { valid_up_to: 1 }))
    );
    assert_eq!(
        string_from_slice(bytes, 3, 0..20),
        Err(out_of_bounds(3, 23, 9))
    );
    assert_eq!(
        string_from_slice(bytes, usize::MAX, 1..2),
        Err(CodecError::Overflow(SliceEdge::Start))
    );
}

#[test]
fn text_from_utf8_reports_the_valid_prefix() {
    assert_eq!(text_from_utf8(b"plain"), Ok("plain"));
    assert_eq!(text_from_utf8("日本語".as_bytes()), Ok("日本語"));
    assert_eq!(
        text_from_utf8(&[b'a', b'b', 0xff, b'c']),
        Err(CodecError::InvalidArgument(InvalidReason::Utf8 { valid_up_to: 2 }))
    );
    assert_eq!(
        text_from_utf8(&[0x80]),
        Err(CodecError::InvalidArgument(InvalidReason::Utf8 { valid_up_to: 0 }))
    );
    // A sequence of three bytes that the input cuts short.
    assert_eq!(
        text_from_utf8(&[b'a', 0xe2, 0x82]),
        Err(CodecError::InvalidArgument(InvalidReason::Utf8 { valid_up_to: 1 }))
    );
    // An encoded surrogate is not UTF-8.
    assert_eq!(
        text_from_utf8(&[0xed, 0xa0, 0x80]),
        Err(CodecError::InvalidArgument(InvalidReason::Utf8 { valid_up_to: 0 }))
    );
    // A long input takes the accelerated path.
    let mut long = vec![b'z'; 200];
    assert_eq!(text_from_utf8(&long).map(|text| text.len()), Ok(200));
    long[150] = 0xc0;
    assert_eq!(
        text_from_utf8(&long),
        Err(CodecError::InvalidArgument(InvalidReason::Utf8 { valid_up_to: 150 }))
    );
}

#[test]
fn expect_size_of_compares_sizes() {
    assert!(expect_size_of::<u32>(4));
    assert!(expect_size_of::<[u8; 3]>(3));
    assert!(!expect_size_of::<u64>(4));
}

#[test]
fn search_of_an_empty_range_names_its_start() {
    let none = |_: usize| -> Option<i32> { panic!("no key is probed") };
    assert_eq!(try_binary_search_range_by(0..0, &5, none), Some(Err(0)));
    assert_eq!(try_binary_search_range_by(7..7, &5, none), Some(Err(7)));
    assert_eq!(try_binary_search_range_by(9..3, &5, none), Some(Err(9)));
}

#[test]
fn search_stops_at_a_missing_key() {
    for target in [i32::MIN, 0, 5, i32::MAX] {
        assert_eq!(try_binary_search_range_by(0..10, &target, |_| None::<i32>), None);
    }
    // The first probe of 0..10 is index 5.
    let first_missing = |index: usize| if index == 5 { None } else { Some(index as i32) };
    assert_eq!(try_binary_search_range_by(0..10, &0, first_missing), None);
    assert_eq!(try_binary_search_range_by(0..10, &9, first_missing), None);
    // A missing key that is never probed does no harm.
    let last_missing = |index: usize| if index == 9 { None } else { Some(index as i32) };
    assert_eq!(try_binary_search_range_by(0..10, &2, last_missing), Some(Ok(2)));
    assert_eq!(try_binary_search_range_by(0..10, &20, last_missing), None);
}

#[test]
fn search_finds_keys_and_insertion_points() {
    let keys = [10, 20, 30, 40, 50];
    let key_of = |index: usize| Some(keys[index]);
    for (index, key) in keys.iter().enumerate() {
        assert_eq!(try_binary_search_range_by(0..5, key, key_of), Some(Ok(index)));
    }
    assert_eq!(try_binary_search_range_by(0..5, &5, key_of), Some(Err(0)));
    assert_eq!(try_binary_search_range_by(0..5, &25, key_of), Some(Err(2)));
    assert_eq!(try_binary_search_range_by(0..5, &55, key_of), Some(Err(5)));
    // A range that does not begin at zero.
    assert_eq!(try_binary_search_range_by(2..5, &40, key_of), Some(Ok(3)));
    assert_eq!(try_binary_search_range_by(2..5, &10, key_of), Some(Err(2)));
    assert_eq!(try_binary_search_range_by(1..3, &40, key_of), Some(Err(3)));
}

#[test]
fn search_among_equal_keys_returns_the_first_probe() {
    let keys = [1, 7, 7, 7, 7, 7, 9];
    let key_of = |index: usize| Some(keys[index]);
    // The first probe of 0..7 is index 3, and its key is the target.
    assert_eq!(try_binary_search_range_by(0..7, &7, key_of), Some(Ok(3)));
    // The first probe of 0..3 is index 1.
    assert_eq!(try_binary_search_range_by(0..3, &7, key_of), Some(Ok(1)));
}

#[test]
fn search_probes_midpoints_of_large_ranges() {
    let high = usize::MAX;
    let key_of = |index: usize| Some(index);
    assert_eq!(try_binary_search_range_by(0..high, &(high - 1), key_of), Some(Ok(high - 1)));
    assert_eq!(try_binary_search_range_by(high - 2..high, &0, key_of), Some(Err(high - 2)));
}
