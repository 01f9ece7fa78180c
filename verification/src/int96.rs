//! The 96-bit legacy timestamp: a Julian day and the nanoseconds within it.

use crate::byte_order::{i32_of_bits, i64_of_bits, lemma_radix_pow_values, to_signed};
use core::cmp::Ordering;
use vstd::prelude::*;
use vstd::std_specs::cmp::{PartialEqSpecImpl, PartialOrdSpec, PartialOrdSpecImpl};

verus! {

/// The Julian day number of 1 January 1970.
pub const JULIAN_DAY_OF_EPOCH: i64 = 2_440_588;

/// Seconds in a day.
pub const SECONDS_IN_DAY: i64 = 86_400;

/// Milliseconds in a second.
pub const MILLISECONDS: i64 = 1_000;

/// Microseconds in a second.
pub const MICROSECONDS: i64 = 1_000_000;

/// Nanoseconds in a second.
pub const NANOSECONDS: i64 = 1_000_000_000;

/// Milliseconds in a day.
pub const MILLISECONDS_IN_DAY: i64 = SECONDS_IN_DAY * MILLISECONDS;

/// Microseconds in a day.
pub const MICROSECONDS_IN_DAY: i64 = SECONDS_IN_DAY * MICROSECONDS;

/// Nanoseconds in a day.
pub const NANOSECONDS_IN_DAY: i64 = SECONDS_IN_DAY * NANOSECONDS;

/// The 64-bit two's-complement number congruent to `value` modulo `2^64`.
pub open spec fn wrap_i64(value: int) -> int {
    let low = value % 0x1_0000_0000_0000_0000;
    if low > i64::MAX {
        low - 0x1_0000_0000_0000_0000
    } else {
        low
    }
}

/// The quotient of `value` by a positive `unit`, rounded towards zero.
pub open spec fn truncating_div(value: int, unit: int) -> int {
    if value >= 0 {
        value / unit
    } else {
        -((-value) / unit)
    }
}

/// The time since 1 January 1970 of nanosecond `nanos` of Julian day `days`,
/// in units of which a day has `per_day` and each of which has `nanos_per_unit`
/// nanoseconds, wrapped to 64 bits.
pub open spec fn since_epoch(days: int, nanos: int, per_day: int, nanos_per_unit: int) -> int {
    wrap_i64((days - JULIAN_DAY_OF_EPOCH) * per_day + truncating_div(nanos, nanos_per_unit))
}

/// A 96-bit value held as three 32-bit words: words 0 and 1 are the low and
/// the high half of the nanoseconds within the day, word 2 is the Julian day.
#[derive(Clone, Copy, Debug)]
pub struct Int96 {
    value: [u32; 3],
}

impl View for Int96 {
    type V = Seq<u32>;

    closed spec fn view(&self) -> Seq<u32> {
        self.value@
    }
}

impl Int96 {
    /// The Julian day: word 2 read as a two's-complement number.
    pub open spec fn days(&self) -> int {
        to_signed(self@[2] as nat, 4)
    }

    /// The nanoseconds within the day: words 1 and 0 read as one 64-bit
    /// two's-complement number.
    pub open spec fn nanos(&self) -> int {
        to_signed((self@[1] as nat) * 0x1_0000_0000 + self@[0] as nat, 8)
    }

    /// A value always has three words.
    pub proof fn lemma_three_words(&self)
        ensures
            self@.len() == 3,
    {
    }

    /// Creates a value whose three words are zero.
    pub fn new() -> (value: Self)
        ensures
            value@ == seq![0u32, 0u32, 0u32],
    {
        let value = Self { value: [0, 0, 0] };
        assert(value@ =~= seq![0u32, 0u32, 0u32]);
        value
    }

    /// The three words.
    #[inline]
    pub fn data(&self) -> (words: &[u32])
        ensures
            words@ == self@,
    {
        &self.value
    }

    /// Replaces the three words.
    #[inline]
    pub fn set_data(&mut self, elem0: u32, elem1: u32, elem2: u32)
        ensures
            final(self)@ == seq![elem0, elem1, elem2],
    {
        self.value = [elem0, elem1, elem2];
        assert(self@ =~= seq![elem0, elem1, elem2]);
    }

    /// The value whose words are the three items of `buf`.
    pub fn from(buf: Vec<u32>) -> (value: Self)
        requires
            buf@.len() == 3,
        ensures
            value@ == buf@,
    {
        let mut result = Self::new();
        result.set_data(buf[0], buf[1], buf[2]);
        assert(result@ =~= buf@);
        result
    }

    /// Seconds since 1 January 1970, wrapped to 64 bits.
    #[inline]
    pub fn to_seconds(&self) -> (seconds: i64)
        ensures
            seconds == since_epoch(
                self.days(),
                self.nanos(),
                SECONDS_IN_DAY as int,
                NANOSECONDS as int,
            ),
    {
        let (day, nanos) = self.data_as_days_and_nanos();
        epoch_units(day, nanos, SECONDS_IN_DAY, NANOSECONDS)
    }

    /// Milliseconds since 1 January 1970, wrapped to 64 bits.
    #[inline]
    pub fn to_millis(&self) -> (millis: i64)
        ensures
            millis == since_epoch(
                self.days(),
                self.nanos(),
                MILLISECONDS_IN_DAY as int,
                MICROSECONDS as int,
            ),
    {
        let (day, nanos) = self.data_as_days_and_nanos();
        epoch_units(day, nanos, MILLISECONDS_IN_DAY, MICROSECONDS)
    }

    /// Microseconds since 1 January 1970, wrapped to 64 bits.
    #[inline]
    pub fn to_micros(&self) -> (micros: i64)
        ensures
            micros == since_epoch(
                self.days(),
                self.nanos(),
                MICROSECONDS_IN_DAY as int,
                MILLISECONDS as int,
            ),
    {
        let (day, nanos) = self.data_as_days_and_nanos();
        epoch_units(day, nanos, MICROSECONDS_IN_DAY, MILLISECONDS)
    }

    /// Nanoseconds since 1 January 1970, wrapped to 64 bits.
    #[inline]
    pub fn to_nanos(&self) -> (nanos: i64)
        ensures
            nanos == since_epoch(self.days(), self.nanos(), NANOSECONDS_IN_DAY as int, 1),
    {
        let (day, nanos) = self.data_as_days_and_nanos();
        epoch_units(day, nanos, NANOSECONDS_IN_DAY, 1)
    }

    /// The Julian day.
    #[inline]
    pub fn get_days(&self) -> (days: i32)
        ensures
            days == self.days(),
    {
        i32_of_bits(self.value[2])
    }

    /// The nanoseconds within the day.
    #[inline]
    pub fn get_nanos(&self) -> (nanos: i64)
        ensures
            nanos == self.nanos(),
    {
        let high: u64 = self.value[1] as u64;
        let low: u64 = self.value[0] as u64;
        i64_of_bits(high * 0x1_0000_0000 + low)
    }

    /// How this value stands to `other`: by day first, by the nanoseconds
    /// within the day where the days are equal. This is the order of the
    /// timestamps that the values stand for.
    pub fn cmp(&self, other: &Self) -> (order: Ordering)
        ensures
            order == day_then_nanos(self.days(), self.nanos(), other.days(), other.nanos()),
    {
        let left_days = self.get_days();
        let right_days = other.get_days();
        if left_days < right_days {
            Ordering::Less
        } else if left_days > right_days {
            Ordering::Greater
        } else {
            let left_nanos = self.get_nanos();
            let right_nanos = other.get_nanos();
            if left_nanos < right_nanos {
                Ordering::Less
            } else if left_nanos > right_nanos {
                Ordering::Greater
            } else {
                Ordering::Equal
            }
        }
    }

    /// The Julian day and the nanoseconds within it.
    #[inline]
    pub fn data_as_days_and_nanos(&self) -> (parts: (i32, i64))
        ensures
            parts.0 == self.days(),
            parts.1 == self.nanos(),
    {
        (self.get_days(), self.get_nanos())
    }
}

/// The time since 1 January 1970 in units of which a day has `per_day` and
/// each of which has `nanos_per_unit` nanoseconds, wrapped to 64 bits.
fn epoch_units(day: i32, nanos: i64, per_day: i64, nanos_per_unit: i64) -> (units: i64)
    requires
        nanos_per_unit > 0,
    ensures
        units == since_epoch(day as int, nanos as int, per_day as int, nanos_per_unit as int),
{
    let whole: i64 = nanos / nanos_per_unit;
    let since: i64 = day as i64 - JULIAN_DAY_OF_EPOCH;
    let product: i64 = since.wrapping_mul(per_day);
    let units: i64 = product.wrapping_add(whole);
    units
}

/// How the pair `(left_days, left_nanos)` stands to `(right_days, right_nanos)`:
/// by day first, by the nanoseconds within the day where the days are equal.
pub open spec fn day_then_nanos(
    left_days: int,
    left_nanos: int,
    right_days: int,
    right_nanos: int,
) -> Ordering {
    if left_days < right_days {
        Ordering::Less
    } else if left_days > right_days {
        Ordering::Greater
    } else if left_nanos < right_nanos {
        Ordering::Less
    } else if left_nanos > right_nanos {
        Ordering::Greater
    } else {
        Ordering::Equal
    }
}

impl Default for Int96 {
    fn default() -> (value: Self)
        ensures
            value@ == seq![0u32, 0u32, 0u32],
    {
        Int96::new()
    }
}

impl PartialEq for Int96 {
    fn eq(&self, other: &Int96) -> (equal: bool) {
        let equal = self.value[0] == other.value[0] && self.value[1] == other.value[1]
            && self.value[2] == other.value[2];
        proof {
            if equal {
                assert(self@ =~= other@);
            }
        }
        equal
    }
}

impl PartialEqSpecImpl for Int96 {
    open spec fn obeys_eq_spec() -> bool {
        true
    }

    open spec fn eq_spec(&self, other: &Int96) -> bool {
        self@ == other@
    }
}

impl Eq for Int96 {

}

impl PartialOrd for Int96 {
    fn partial_cmp(&self, other: &Int96) -> (order: Option<Ordering>) {
        Some(self.cmp(other))
    }
}

impl PartialOrdSpecImpl for Int96 {
    open spec fn obeys_partial_cmp_spec() -> bool {
        true
    }

    open spec fn partial_cmp_spec(&self, other: &Int96) -> Option<Ordering> {
        Some(day_then_nanos(self.days(), self.nanos(), other.days(), other.nanos()))
    }
}

/// Two values of the same Julian day are ordered as their nanoseconds within
/// the day are, whatever the day.
pub proof fn lemma_same_day_ordered_by_nanos(left: Int96, right: Int96)
    requires
        left.days() == right.days(),
    ensures
        PartialOrdSpec::partial_cmp_spec(&left, &right) == Some(Ordering::Less) <==> left.nanos()
            < right.nanos(),
        PartialOrdSpec::partial_cmp_spec(&left, &right) == Some(Ordering::Greater)
            <==> left.nanos() > right.nanos(),
        PartialOrdSpec::partial_cmp_spec(&left, &right) == Some(Ordering::Equal) <==> left.nanos()
            == right.nanos(),
{
}

/// Values of different Julian days are ordered as their days are.
pub proof fn lemma_ordered_by_day_first(left: Int96, right: Int96)
    requires
        left.days() != right.days(),
    ensures
        PartialOrdSpec::partial_cmp_spec(&left, &right) == Some(Ordering::Less) <==> left.days()
            < right.days(),
        PartialOrdSpec::partial_cmp_spec(&left, &right) == Some(Ordering::Greater)
            <==> left.days() > right.days(),
{
}

/// Two values compare equal in the order exactly when their words are equal.
pub proof fn lemma_order_equal_is_equality(left: Int96, right: Int96)
    ensures
        PartialOrdSpec::partial_cmp_spec(&left, &right) == Some(Ordering::Equal) <==> left@
            == right@,
{
    lemma_radix_pow_values();
    left.lemma_three_words();
    right.lemma_three_words();
    if PartialOrdSpec::partial_cmp_spec(&left, &right) == Some(Ordering::Equal) {
        assert(left@[2] == right@[2]);
        assert(left@[1] == right@[1]);
        assert(left@[0] == right@[0]);
        assert(left@ =~= right@);
    }
}

/// Every conversion yields a 64-bit number congruent, modulo `2^64`, to the
/// exact count: overflow wraps and is never an error.
pub proof fn lemma_since_epoch_wraps(days: int, nanos: int, per_day: int, nanos_per_unit: int)
    ensures
        i64::MIN <= since_epoch(days, nanos, per_day, nanos_per_unit) <= i64::MAX,
        (since_epoch(days, nanos, per_day, nanos_per_unit) - ((days - JULIAN_DAY_OF_EPOCH) * per_day
            + truncating_div(nanos, nanos_per_unit))) % 0x1_0000_0000_0000_0000 == 0,
{
}

} // verus!
