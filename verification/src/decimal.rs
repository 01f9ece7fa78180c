//! Decimal values as they are stored: the bytes of the unscaled value, with
//! precision and scale.

use crate::byte_array::{ByteArray, same_bytes};
use crate::byte_order::{
    ByteOrder, bits_of_i32, bits_of_i64, lemma_le_bytes_len, lemma_radix_pow_values, to_unsigned,
    uint_bytes, write_uint,
};
use vstd::prelude::*;
use vstd::std_specs::cmp::{PartialEqSpec, PartialEqSpecImpl};

verus! {

/// What a decimal stands for.
pub struct DecimalView {
    /// The bytes of the unscaled value, most significant first; none where
    /// the value is a byte array without data.
    pub data: Option<Seq<u8>>,
    /// The total number of digits.
    pub precision: int,
    /// The number of digits to the right of the decimal point.
    pub scale: int,
}

/// A decimal value: a container of the unscaled value's bytes, with no
/// arithmetic of its own.
#[allow(inconsistent_fields)]
#[derive(Debug)]
pub enum Decimal {
    /// A decimal whose unscaled value is a 32-bit integer.
    Int32 {
        /// The unscaled value, most significant byte first.
        value: [u8; 4],
        /// The total number of digits.
        precision: i32,
        /// The number of digits to the right of the decimal point.
        scale: i32,
    },
    /// A decimal whose unscaled value is a 64-bit integer.
    Int64 {
        /// The unscaled value, most significant byte first.
        value: [u8; 8],
        /// The total number of digits.
        precision: i32,
        /// The number of digits to the right of the decimal point.
        scale: i32,
    },
    /// A decimal whose unscaled value is a byte array.
    Bytes {
        /// The unscaled value, most significant byte first.
        value: ByteArray,
        /// The total number of digits.
        precision: i32,
        /// The number of digits to the right of the decimal point.
        scale: i32,
    },
}

impl View for Decimal {
    type V = DecimalView;

    open spec fn view(&self) -> DecimalView {
        match *self {
            Decimal::Int32 { value, precision, scale } => DecimalView {
                data: Some(value@),
                precision: precision as int,
                scale: scale as int,
            },
            Decimal::Int64 { value, precision, scale } => DecimalView {
                data: Some(value@),
                precision: precision as int,
                scale: scale as int,
            },
            Decimal::Bytes { value, precision, scale } => DecimalView {
                data: value@,
                precision: precision as int,
                scale: scale as int,
            },
        }
    }
}

/// The `width` bytes of a two's-complement number, most significant first.
pub open spec fn be_bytes(value: int, width: nat) -> Seq<u8> {
    uint_bytes(to_unsigned(value, width), width, ByteOrder::Big)
}

/// The four bytes of `value`, most significant first.
pub fn i32_to_be_bytes(value: i32) -> (bytes: [u8; 4])
    ensures
        bytes@ == be_bytes(value as int, 4),
{
    let mut written: Vec<u8> = Vec::new();
    proof {
        lemma_radix_pow_values();
        lemma_le_bytes_len(to_unsigned(value as int, 4), 4);
    }
    write_uint(bits_of_i32(value) as u64, 4, ByteOrder::Big, &mut written);
    let bytes = [written[0], written[1], written[2], written[3]];
    assert(bytes@ =~= be_bytes(value as int, 4));
    bytes
}

/// The eight bytes of `value`, most significant first.
pub fn i64_to_be_bytes(value: i64) -> (bytes: [u8; 8])
    ensures
        bytes@ == be_bytes(value as int, 8),
{
    let mut written: Vec<u8> = Vec::new();
    proof {
        lemma_radix_pow_values();
        lemma_le_bytes_len(to_unsigned(value as int, 8), 8);
    }
    write_uint(bits_of_i64(value), 8, ByteOrder::Big, &mut written);
    let bytes = [
        written[0],
        written[1],
        written[2],
        written[3],
        written[4],
        written[5],
        written[6],
        written[7],
    ];
    assert(bytes@ =~= be_bytes(value as int, 8));
    bytes
}

impl Decimal {
    /// The decimal whose unscaled value is the 32-bit `value`.
    pub fn from_i32(value: i32, precision: i32, scale: i32) -> (decimal: Self)
        ensures
            decimal is Int32,
            decimal@ == (DecimalView {
                data: Some(be_bytes(value as int, 4)),
                precision: precision as int,
                scale: scale as int,
            }),
    {
        let bytes = i32_to_be_bytes(value);
        Decimal::Int32 { value: bytes, precision, scale }
    }

    /// The decimal whose unscaled value is the 64-bit `value`.
    pub fn from_i64(value: i64, precision: i32, scale: i32) -> (decimal: Self)
        ensures
            decimal is Int64,
            decimal@ == (DecimalView {
                data: Some(be_bytes(value as int, 8)),
                precision: precision as int,
                scale: scale as int,
            }),
    {
        let bytes = i64_to_be_bytes(value);
        Decimal::Int64 { value: bytes, precision, scale }
    }

    /// The decimal whose unscaled value is held by `value`.
    pub fn from_bytes(value: ByteArray, precision: i32, scale: i32) -> (decimal: Self)
        ensures
            decimal is Bytes,
            decimal@ == (DecimalView {
                data: value@,
                precision: precision as int,
                scale: scale as int,
            }),
    {
        Decimal::Bytes { value, precision, scale }
    }

    /// The bytes of the unscaled value.
    pub fn data(&self) -> (bytes: &[u8])
        requires
            self@.data is Some,
        ensures
            bytes@ == self@.data->0,
    {
        match self {
            Decimal::Int32 { value, .. } => value.as_slice(),
            Decimal::Int64 { value, .. } => value.as_slice(),
            Decimal::Bytes { value, .. } => value.data(),
        }
    }

    /// The bytes of the unscaled value, where it has any.
    pub fn data_if_set(&self) -> (bytes: Option<&[u8]>)
        ensures
            match bytes {
                Some(slice) => self@.data == Some(slice@),
                None => self@.data is None,
            },
    {
        match self {
            Decimal::Int32 { value, .. } => Some(value.as_slice()),
            Decimal::Int64 { value, .. } => Some(value.as_slice()),
            Decimal::Bytes { value, .. } => value.data_if_set(),
        }
    }

    /// The total number of digits.
    pub fn precision(&self) -> (precision: i32)
        ensures
            precision == self@.precision,
    {
        match *self {
            Decimal::Int32 { precision, .. } => precision,
            Decimal::Int64 { precision, .. } => precision,
            Decimal::Bytes { precision, .. } => precision,
        }
    }

    /// The number of digits to the right of the decimal point.
    pub fn scale(&self) -> (scale: i32)
        ensures
            scale == self@.scale,
    {
        match *self {
            Decimal::Int32 { scale, .. } => scale,
            Decimal::Int64 { scale, .. } => scale,
            Decimal::Bytes { scale, .. } => scale,
        }
    }
}

impl Clone for Decimal {
    fn clone(&self) -> (copy: Self)
        ensures
            copy@ == self@,
    {
        match self {
            Decimal::Int32 { value, precision, scale } => Decimal::Int32 {
                value: *value,
                precision: *precision,
                scale: *scale,
            },
            Decimal::Int64 { value, precision, scale } => Decimal::Int64 {
                value: *value,
                precision: *precision,
                scale: *scale,
            },
            Decimal::Bytes { value, precision, scale } => Decimal::Bytes {
                value: value.clone(),
                precision: *precision,
                scale: *scale,
            },
        }
    }
}

impl Default for Decimal {
    fn default() -> (decimal: Self)
        ensures
            decimal@ == (DecimalView { data: Some(be_bytes(0, 4)), precision: 0, scale: 0 }),
    {
        Self::from_i32(0, 0, 0)
    }
}

impl PartialEq for Decimal {
    fn eq(&self, other: &Decimal) -> (equal: bool) {
        self.precision() == other.precision() && self.scale() == other.scale() && match (
            self.data_if_set(),
            other.data_if_set(),
        ) {
            (Some(left), Some(right)) => same_bytes(left, right),
            (None, None) => true,
            _ => false,
        }
    }
}

impl PartialEqSpecImpl for Decimal {
    open spec fn obeys_eq_spec() -> bool {
        true
    }

    open spec fn eq_spec(&self, other: &Decimal) -> bool {
        self@ == other@
    }
}

/// Decimals are equal exactly when their precisions, their scales and the
/// bytes of their unscaled values are equal, whatever holds the bytes.
pub proof fn lemma_decimal_equality(left: Decimal, right: Decimal)
    ensures
        PartialEqSpec::eq_spec(&left, &right) <==> {
            &&& left@.precision == right@.precision
            &&& left@.scale == right@.scale
            &&& left@.data == right@.data
        },
{
}

/// A decimal made of a 32-bit integer equals the decimal made of a byte array
/// exactly when the precisions and the scales are equal and the byte array
/// holds the integer's four bytes, most significant first.
pub proof fn lemma_decimal_across_representations(
    from_integer: Decimal,
    from_array: Decimal,
    value: i32,
)
    requires
        from_integer@.data == Some(be_bytes(value as int, 4)),
    ensures
        PartialEqSpec::eq_spec(&from_integer, &from_array) <==> {
            &&& from_integer@.precision == from_array@.precision
            &&& from_integer@.scale == from_array@.scale
            &&& from_array@.data == Some(be_bytes(value as int, 4))
        },
{
}

/// Decimals of integers of different widths are never equal.
pub proof fn lemma_decimal_widths_differ(narrow: Decimal, wide: Decimal)
    requires
        narrow is Int32,
        wide is Int64,
    ensures
        !PartialEqSpec::eq_spec(&narrow, &wide),
{
    let narrow_bytes = narrow@.data->0;
    let wide_bytes = wide@.data->0;
    assert(narrow_bytes.len() == 4);
    assert(wide_bytes.len() == 8);
}

} // verus!
