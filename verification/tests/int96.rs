use parquet_types::int96::Int96;
use parquet_types::utils::expect_size_of;

fn timestamp(low: u32, high: u32, day: u32) -> Int96 {
    Int96::from(vec![low, high, day])
}

#[test]
fn test_int96_from() {
    assert_eq!(
        Int96::from(vec![1, 12345, 1234567890]).data(),
        &[1, 12345, 1234567890]
    );
}

#[test]
fn new_and_default_are_zero() {
    assert_eq!(Int96::new().data(), &[0, 0, 0]);
    assert_eq!(Int96::default().data(), &[0, 0, 0]);
    assert_eq!(Int96::new(), Int96::default());
}

#[test]
fn set_data_replaces_the_three_words() {
    let mut value = Int96::new();
    value.set_data(7, 8, 9);
    assert_eq!(value.data(), &[7, 8, 9]);
}

#[test]
fn occupies_twelve_bytes() {
    assert!(expect_size_of::<Int96>(12));
    assert!(!expect_size_of::<Int96>(16));
    assert_eq!(std::mem::size_of::<Int96>(), 12);
}

#[test]
fn days_and_nanos_are_read_as_signed_numbers() {
    let value = timestamp(1, 2, 2_440_588);
    assert_eq!(value.get_days(), 2_440_588);
    assert_eq!(value.get_nanos(), (2i64 << 32) + 1);
    assert_eq!(value.data_as_days_and_nanos(), (2_440_588, (2i64 << 32) + 1));

    let negative = timestamp(u32::MAX, u32::MAX, u32::MAX);
    assert_eq!(negative.get_days(), -1);
    assert_eq!(negative.get_nanos(), -1);

    let lowest = timestamp(0, 0x8000_0000, 0x8000_0000);
    assert_eq!(lowest.get_days(), i32::MIN);
    assert_eq!(lowest.get_nanos(), i64::MIN);
}

#[test]
fn the_epoch_is_zero_in_every_unit() {
    let epoch = timestamp(0, 0, 2_440_588);
    assert_eq!(epoch.to_seconds(), 0);
    assert_eq!(epoch.to_millis(), 0);
    assert_eq!(epoch.to_micros(), 0);
    assert_eq!(epoch.to_nanos(), 0);
}

#[test]
fn conversions_count_days_and_truncate_nanoseconds() {
    // One day and 1.5 seconds after the epoch.
    let value = timestamp(1_500_000_000, 0, 2_440_589);
    assert_eq!(value.to_seconds(), 86_401);
    assert_eq!(value.to_millis(), 86_401_500);
    assert_eq!(value.to_micros(), 86_401_500_000);
    assert_eq!(value.to_nanos(), 86_401_500_000_000);

    // 1_999_999_999 nanoseconds are one whole second, not two.
    let almost_two = timestamp(1_999_999_999, 0, 2_440_588);
    assert_eq!(almost_two.to_seconds(), 1);
    assert_eq!(almost_two.to_millis(), 1_999);
    assert_eq!(almost_two.to_micros(), 1_999_999);
}

#[test]
fn negative_nanoseconds_truncate_towards_zero() {
    // -1_500_000_000 nanoseconds on the day of the epoch.
    let value = timestamp(2_794_967_296, u32::MAX, 2_440_588);
    assert_eq!(value.get_nanos(), -1_500_000_000);
    assert_eq!(value.to_seconds(), -1);
    assert_eq!(value.to_millis(), -1_500);
    assert_eq!(value.to_nanos(), -1_500_000_000);
}

#[test]
fn days_before_the_epoch_are_negative() {
    let value = timestamp(0, 0, u32::MAX);
    assert_eq!(value.to_seconds(), -210_866_889_600);
}

#[test]
fn conversions_wrap_on_overflow() {
    let value = timestamp(0, 0, i32::MAX as u32);
    assert_eq!(value.get_days(), i32::MAX);
    assert_eq!(value.to_seconds(), 185_331_720_297_600);
    assert_eq!(value.to_millis(), 185_331_720_297_600_000);
    assert_eq!(value.to_micros(), 864_279_560_504_483_840);
    assert_eq!(value.to_nanos(), -2_717_410_959_865_085_952);
}

#[test]
fn order_is_by_day_then_by_nanoseconds() {
    let early = timestamp(5, 0, 100);
    let later_same_day = timestamp(4, 1, 100);
    let next_day = timestamp(0, 0, 101);
    assert!(early < later_same_day);
    assert!(later_same_day > early);
    assert!(later_same_day < next_day);
    assert!(early < next_day);
    assert!(early <= timestamp(5, 0, 100));
    assert!(early >= timestamp(5, 0, 100));
    assert_eq!(
        early.partial_cmp(&timestamp(5, 0, 100)),
        Some(std::cmp::Ordering::Equal)
    );
    // The low word alone decides between values that agree otherwise.
    assert!(timestamp(1, 7, 100) < timestamp(2, 7, 100));
    // A day read as negative comes before day zero.
    assert!(timestamp(0, 0, u32::MAX) < timestamp(0, 0, 0));
}

#[test]
fn equality_is_of_the_three_words() {
    assert_eq!(timestamp(1, 2, 3), timestamp(1, 2, 3));
    assert_ne!(timestamp(1, 2, 3), timestamp(0, 2, 3));
    assert_ne!(timestamp(1, 2, 3), timestamp(1, 0, 3));
    assert_ne!(timestamp(1, 2, 3), timestamp(1, 2, 0));
}
