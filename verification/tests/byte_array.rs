use bytes::Bytes;
use parquet_types::byte_array::{ByteArray, FixedLenByteArray, bytes_order, same_bytes};
use parquet_types::errors::{CodecError, InvalidReason};
use std::cmp::Ordering;

#[test]
fn test_byte_array_from() {
    assert_eq!(ByteArray::from(b"ABC".to_vec()).data(), b"ABC");
    assert_eq!(ByteArray::from("ABC").data(), b"ABC");
    assert_eq!(
        ByteArray::from(Bytes::from(vec![1u8, 2u8, 3u8, 4u8, 5u8])).data(),
        &[1u8, 2u8, 3u8, 4u8, 5u8]
    );
    let buf = vec![6u8, 7u8, 8u8, 9u8, 10u8];
    assert_eq!(ByteArray::from(buf).data(), &[6u8, 7u8, 8u8, 9u8, 10u8]);
}

#[test]
fn test_byte_array_ord() {
    let ba1 = ByteArray::from(vec![1, 2, 3]);
    let ba11 = ByteArray::from(vec![1, 2, 3]);
    let ba2 = ByteArray::from(vec![3, 4]);
    let ba3 = ByteArray::from(vec![1, 2, 4]);
    let ba4 = ByteArray::from(vec![]);
    let ba5 = ByteArray::from(vec![2, 2, 3]);

    assert!(ba1 < ba2);
    assert!(ba3 > ba1);
    assert!(ba1 > ba4);
    assert_eq!(ba1, ba11);
    assert!(ba5 > ba1);
}

#[test]
fn fixed_len_byte_array_forwards_to_its_byte_array() {
    let mut array = FixedLenByteArray::from(vec![9u8, 8, 7]);
    assert_eq!(array.len(), 3);
    assert_eq!(array.data(), &[9u8, 8, 7]);
    array.set_data(Bytes::from(vec![1u8]));
    assert_eq!(array.data(), &[1u8]);
    let inner: ByteArray = array.into();
    assert_eq!(inner, ByteArray::from(vec![1u8]));
}

#[test]
fn unset_is_not_empty() {
    let unset = ByteArray::new();
    let empty = ByteArray::from(Vec::<u8>::new());
    assert_ne!(unset, empty);
    assert_eq!(unset, ByteArray::default());
    assert_eq!(unset.data_if_set(), None);
    assert_eq!(empty.data_if_set(), Some(&[] as &[u8]));
    assert!(empty.is_empty());
    assert_eq!(empty.len(), 0);
    assert!(!ByteArray::from("a").is_empty());
    assert_eq!(ByteArray::from("abc").len(), 3);
}

#[test]
fn unset_sorts_before_every_value() {
    let unset = ByteArray::new();
    assert!(unset < ByteArray::from(Vec::<u8>::new()));
    assert!(unset < ByteArray::from(vec![0u8]));
    assert!(ByteArray::from(vec![0u8]) > unset);
    assert_eq!(unset.partial_cmp(&ByteArray::new()), Some(Ordering::Equal));
    assert_eq!(unset.partial_cmp(&ByteArray::from("x")), Some(Ordering::Less));
    assert_eq!(ByteArray::from("x").partial_cmp(&unset), Some(Ordering::Greater));
}

#[test]
fn order_is_lexicographic() {
    let order = |left: &[u8], right: &[u8]| {
        ByteArray::from(left).partial_cmp(&ByteArray::from(right))
    };
    assert_eq!(order(&[1, 2, 3], &[1, 2, 3]), Some(Ordering::Equal));
    assert_eq!(order(&[1, 2, 3], &[1, 2, 4]), Some(Ordering::Less));
    assert_eq!(order(&[1, 2, 3], &[3, 4]), Some(Ordering::Less));
    assert_eq!(order(&[3, 4], &[1, 2, 3]), Some(Ordering::Greater));
    assert_eq!(order(&[1, 2], &[1, 2, 0]), Some(Ordering::Less));
    assert_eq!(order(&[1, 2, 0], &[1, 2]), Some(Ordering::Greater));
    assert_eq!(order(&[], &[]), Some(Ordering::Equal));
    assert_eq!(order(&[], &[0]), Some(Ordering::Less));
    assert_eq!(order(&[255], &[0, 255]), Some(Ordering::Greater));
    // Bytes are compared as unsigned numbers.
    assert_eq!(order(&[0x7f], &[0x80]), Some(Ordering::Less));

    assert_eq!(bytes_order(&[1, 2, 3], &[1, 2, 4]), Ordering::Less);
    assert_eq!(bytes_order(&[2], &[1, 9]), Ordering::Greater);
    assert_eq!(bytes_order(&[5, 6], &[5, 6]), Ordering::Equal);
    assert!(same_bytes(&[5, 6], &[5, 6]));
    assert!(!same_bytes(&[5, 6], &[5, 7]));
    assert!(!same_bytes(&[5, 6], &[5]));
    assert!(same_bytes(&[], &[]));
}

#[test]
fn order_agrees_with_slices() {
    let samples: [&[u8]; 7] = [&[], &[0], &[0, 0], &[0, 1], &[1], &[1, 0], &[255]];
    for left in samples {
        for right in samples {
            assert_eq!(
                ByteArray::from(left).partial_cmp(&ByteArray::from(right)),
                left.partial_cmp(right)
            );
            assert_eq!(ByteArray::from(left) == ByteArray::from(right), left == right);
        }
    }
}

#[test]
fn set_data_replaces_the_data() {
    let mut array = ByteArray::new();
    array.set_data(Bytes::from(vec![1u8, 2]));
    assert_eq!(array.data(), &[1, 2]);
    array.set_data(Bytes::from(vec![3u8]));
    assert_eq!(array.data(), &[3]);
}

#[test]
fn from_a_slice_copies_it() {
    let source = [4u8, 5, 6];
    assert_eq!(ByteArray::from(&source[..]).data(), &[4, 5, 6]);
    assert_eq!(ByteArray::from(&source[1..2]).data(), &[5]);
}

#[test]
fn slice_shares_a_part_of_the_data() {
    let array = ByteArray::from(vec![10u8, 11, 12, 13, 14]);
    let part = array.slice(1, 3);
    assert_eq!(part.data(), &[11, 12, 13]);
    assert_eq!(part.data().as_ptr(), array.data()[1..].as_ptr());
    assert_eq!(array.slice(0, 5), array);
    assert_eq!(array.slice(5, 0).data(), &[] as &[u8]);
    assert_eq!(part.slice(2, 1).data(), &[13]);
}

#[test]
fn clone_holds_the_same_bytes() {
    let array = ByteArray::from("shared");
    let copy = array.clone();
    assert_eq!(copy, array);
    assert_eq!(copy.data(), b"shared");
    assert_eq!(copy.data().as_ptr(), array.data().as_ptr());
    assert_eq!(ByteArray::new().clone(), ByteArray::new());
    let fixed = FixedLenByteArray::from(vec![1u8, 2]);
    assert_eq!(fixed.clone(), fixed);
}

#[test]
fn as_utf8_validates_the_data() {
    assert_eq!(ByteArray::from("héllo").as_utf8(), Ok("héllo"));
    assert_eq!(ByteArray::from("").as_utf8(), Ok(""));
    assert_eq!(
        ByteArray::from(vec![b'o', b'k', 0xfe]).as_utf8(),
        Err(CodecError::InvalidArgument(InvalidReason::Utf8 { valid_up_to: 2 }))
    );
    assert_eq!(
        ByteArray::new().as_utf8(),
        Err(CodecError::InvalidArgument(InvalidReason::UnsetByteArray))
    );
}

#[test]
fn heap_size_is_the_length_of_the_data() {
    assert_eq!(ByteArray::from(vec![0u8; 17]).heap_size(), 17);
    assert_eq!(ByteArray::from("").heap_size(), 0);
    assert_eq!(ByteArray::new().heap_size(), 0);
    // A slice counts its own bytes only.
    assert_eq!(ByteArray::from(vec![0u8; 17]).slice(2, 5).heap_size(), 5);
}

#[test]
fn from_f16_bits_is_little_endian() {
    assert_eq!(ByteArray::from_f16_bits(0x3c00).data(), &[0x00, 0x3c]);
    assert_eq!(ByteArray::from_f16_bits(0x1234).data(), &[0x34, 0x12]);
    assert_eq!(ByteArray::from_f16_bits(0).data(), &[0, 0]);
    assert_eq!(ByteArray::from_f16_bits(u16::MAX).data(), &[0xff, 0xff]);
}

#[test]
fn fixed_len_byte_array_compares_as_its_byte_array() {
    let fixed = FixedLenByteArray::from(vec![1u8, 2, 3]);
    let same = ByteArray::from(vec![1u8, 2, 3]);
    let greater = ByteArray::from(vec![1u8, 2, 4]);
    assert!(fixed == same);
    assert!(same == fixed);
    assert!(fixed != greater);
    assert!(fixed < greater);
    assert!(greater > fixed);
    assert!(fixed < FixedLenByteArray::from(vec![2u8]));
    assert!(FixedLenByteArray::default() < fixed);
    assert_eq!(FixedLenByteArray::default(), FixedLenByteArray::from(ByteArray::new()));
    assert_eq!(
        fixed.partial_cmp(&FixedLenByteArray::from(vec![1u8, 2, 3])),
        Some(Ordering::Equal)
    );
}
