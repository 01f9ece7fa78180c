//! Unsigned and two's-complement integers as bytes, in either byte order.

use vstd::prelude::*;

verus! {

/// The order in which the bytes of a number are laid out.
#[derive(Clone, Copy, Debug, PartialEq, Eq, Structural)]
pub enum ByteOrder {
    /// Least significant byte first.
    Little,
    /// Most significant byte first.
    Big,
}

/// `256` to the power `width`.
pub open spec fn radix_pow(width: nat) -> nat
    decreases width,
{
    if width == 0 {
        1
    } else {
        256 * radix_pow((width - 1) as nat)
    }
}

/// The `width` least significant bytes of `value`, least significant first.
pub open spec fn le_bytes(value: nat, width: nat) -> Seq<u8>
    decreases width,
{
    if width == 0 {
        Seq::empty()
    } else {
        seq![(value % 256) as u8] + le_bytes(value / 256, (width - 1) as nat)
    }
}

/// The number whose bytes, least significant first, are `bytes`.
pub open spec fn le_value(bytes: Seq<u8>) -> nat
    decreases bytes.len(),
{
    if bytes.len() == 0 {
        0
    } else {
        bytes[0] as nat + 256 * le_value(bytes.drop_first())
    }
}

/// `bytes` as they stand for `Little`, reversed for `Big`.
pub open spec fn arranged(bytes: Seq<u8>, order: ByteOrder) -> Seq<u8> {
    match order {
        ByteOrder::Little => bytes,
        ByteOrder::Big => bytes.reverse(),
    }
}

/// The `width` bytes that stand for `value` in the given order.
pub open spec fn uint_bytes(value: nat, width: nat, order: ByteOrder) -> Seq<u8> {
    arranged(le_bytes(value, width), order)
}

/// The number that `bytes` stand for in the given order.
pub open spec fn uint_value(bytes: Seq<u8>, order: ByteOrder) -> nat {
    le_value(arranged(bytes, order))
}

/// The unsigned number with the same `8 * width` bits as the two's-complement `value`.
pub open spec fn to_unsigned(value: int, width: nat) -> nat {
    if value >= 0 {
        value as nat
    } else {
        (value + radix_pow(width)) as nat
    }
}

/// The two's-complement number with the same `8 * width` bits as `bits`.
pub open spec fn to_signed(bits: nat, width: nat) -> int {
    if 2 * bits < radix_pow(width) {
        bits as int
    } else {
        bits - radix_pow(width)
    }
}

/// The ranges of one, two, four and eight bytes.
pub proof fn lemma_radix_pow_values()
    ensures
        radix_pow(0) == 1,
        radix_pow(1) == 0x100,
        radix_pow(2) == 0x1_0000,
        radix_pow(4) == 0x1_0000_0000,
        radix_pow(8) == 0x1_0000_0000_0000_0000,
{
    reveal_with_fuel(radix_pow, 9);
}

/// One more byte multiplies the range by `256`.
pub proof fn lemma_radix_pow_step(width: nat)
    ensures
        radix_pow(width + 1) == 256 * radix_pow(width),
{
}

/// More bytes never narrow the range.
pub proof fn lemma_radix_pow_monotonic(narrow: nat, wide: nat)
    requires
        narrow <= wide,
    ensures
        radix_pow(narrow) <= radix_pow(wide),
    decreases wide,
{
    if narrow < wide {
        lemma_radix_pow_monotonic(narrow, (wide - 1) as nat);
    }
}

/// `le_bytes` yields `width` bytes.
pub proof fn lemma_le_bytes_len(value: nat, width: nat)
    ensures
        le_bytes(value, width).len() == width,
    decreases width,
{
    if width > 0 {
        lemma_le_bytes_len(value / 256, (width - 1) as nat);
    }
}

/// A number of `n` bytes lies below `256` to the `n`.
pub proof fn lemma_le_value_bound(bytes: Seq<u8>)
    ensures
        le_value(bytes) < radix_pow(bytes.len()),
    decreases bytes.len(),
{
    if bytes.len() > 0 {
        lemma_le_value_bound(bytes.drop_first());
    }
}

/// Reading back the bytes of a number that fits in `width` bytes yields the number.
pub proof fn lemma_le_value_of_bytes(value: nat, width: nat)
    requires
        value < radix_pow(width),
    ensures
        le_value(le_bytes(value, width)) == value,
    decreases width,
{
    if width > 0 {
        let rest = le_bytes(value / 256, (width - 1) as nat);
        lemma_le_value_of_bytes(value / 256, (width - 1) as nat);
        assert(le_bytes(value, width).drop_first() =~= rest);
    }
}

/// Writing out the number that bytes stand for yields the bytes.
pub proof fn lemma_le_bytes_of_value(bytes: Seq<u8>)
    ensures
        le_bytes(le_value(bytes), bytes.len()) == bytes,
    decreases bytes.len(),
{
    if bytes.len() > 0 {
        let rest = bytes.drop_first();
        lemma_le_bytes_of_value(rest);
        assert(le_value(bytes) / 256 == le_value(rest));
        assert(le_value(bytes) % 256 == bytes[0]);
        assert(le_bytes(le_value(bytes), bytes.len()) =~= bytes);
    }
}

/// In either order, the bytes of a number that fits stand for that number, and
/// there are `width` of them.
pub proof fn lemma_uint_round_trip(value: nat, width: nat, order: ByteOrder)
    requires
        value < radix_pow(width),
    ensures
        uint_bytes(value, width, order).len() == width,
        uint_value(uint_bytes(value, width, order), order) == value,
{
    lemma_le_bytes_len(value, width);
    lemma_le_value_of_bytes(value, width);
    let le = le_bytes(value, width);
    assert(le.reverse().reverse() =~= le);
}

/// In either order, the number that bytes stand for is written as those bytes.
pub proof fn lemma_uint_bytes_of_value(bytes: Seq<u8>, order: ByteOrder)
    ensures
        uint_value(bytes, order) < radix_pow(bytes.len()),
        uint_bytes(uint_value(bytes, order), bytes.len(), order) == bytes,
{
    let le = arranged(bytes, order);
    lemma_le_value_bound(le);
    lemma_le_bytes_of_value(le);
    assert(bytes.reverse().reverse() =~= bytes);
}

/// Two's complement: the unsigned and the signed reading of the same bits
/// convert into each other.
pub proof fn lemma_signed_round_trip(value: int, width: nat)
    requires
        width > 0,
        -(radix_pow(width) as int) <= 2 * value < radix_pow(width),
    ensures
        to_unsigned(value, width) < radix_pow(width),
        to_signed(to_unsigned(value, width), width) == value,
{
}

/// `u16::to_ne_bytes`: the two bytes of `value` as this machine lays them out
/// in memory. Which of the two byte orders that is depends on the machine,
/// so the contract claims no more than that it is one of them.
#[verifier::external_body]
fn memory_bytes_of_u16(value: u16) -> (bytes: [u8; 2])
    ensures
        bytes@ == uint_bytes(value as nat, 2, ByteOrder::Little) || bytes@ == uint_bytes(
            value as nat,
            2,
            ByteOrder::Big,
        ),
{
    value.to_ne_bytes()
}

/// The byte order in which this machine lays out numbers in memory.
pub fn native_byte_order() -> (order: ByteOrder) {
    byte_order_of_one(memory_bytes_of_u16(1))
}

/// The byte order in which `bytes` lay out the 16-bit number one: `Little`
/// where the first byte is the one, `Big` where it is not. For each of the
/// two layouts of the number one, that is the order of the layout. This is
/// the decision behind `native_byte_order`, which hands it the bytes of the
/// number one as the machine lays them out; what the machine does differs
/// from machine to machine, so the order is promised here, for each layout,
/// and not there.
pub fn byte_order_of_one(bytes: [u8; 2]) -> (order: ByteOrder)
    ensures
        order == if bytes@[0] == 1 {
            ByteOrder::Little
        } else {
            ByteOrder::Big
        },
        bytes@ == uint_bytes(1, 2, ByteOrder::Little) || bytes@ == uint_bytes(1, 2, ByteOrder::Big)
            ==> bytes@ == uint_bytes(1, 2, order),
{
    proof {
        lemma_layouts_of_one();
    }
    if bytes[0] == 1 {
        ByteOrder::Little
    } else {
        ByteOrder::Big
    }
}

/// The two layouts of the 16-bit number one.
pub proof fn lemma_layouts_of_one()
    ensures
        uint_bytes(1, 2, ByteOrder::Little) == seq![1u8, 0u8],
        uint_bytes(1, 2, ByteOrder::Big) == seq![0u8, 1u8],
{
    reveal_with_fuel(le_bytes, 3);
    let little = le_bytes(1, 2);
    assert(little =~= seq![1u8, 0u8]);
    assert(little.reverse() =~= seq![0u8, 1u8]);
}

/// Appends to `out` the `width` bytes of `value` in the given order.
pub fn write_uint(value: u64, width: usize, order: ByteOrder, out: &mut Vec<u8>)
    requires
        width <= 8,
        value < radix_pow(width as nat),
    ensures
        final(out)@ == old(out)@ + uint_bytes(value as nat, width as nat, order),
{
    let ghost all = le_bytes(value as nat, width as nat);
    let mut le = [0u8;8];
    let mut rest: u64 = value;
    let mut i: usize = 0;
    proof {
        assert(le@.take(0) + all =~= all);
    }
    while i < width
        invariant
            i <= width <= 8,
            all == le_bytes(value as nat, width as nat),
            le@.take(i as int) + le_bytes(rest as nat, (width - i) as nat) == all,
        decreases width - i,
    {
        let ghost before = le@.take(i as int);
        let byte = (rest % 256) as u8;
        le[i] = byte;
        proof {
            let tail = le_bytes((rest / 256) as nat, (width - i - 1) as nat);
            assert(le_bytes(rest as nat, (width - i) as nat) == seq![byte] + tail);
            assert(le@.take(i + 1) =~= before + seq![byte]);
            assert(le@.take(i + 1) + tail =~= before + (seq![byte] + tail));
        }
        rest = rest / 256;
        i += 1;
    }
    proof {
        assert(le@.take(width as int) + Seq::<u8>::empty() =~= le@.take(width as int));
        lemma_le_bytes_len(value as nat, width as nat);
    }
    let ghost start = out@;
    let mut k: usize = 0;
    while k < width
        invariant
            k <= width <= 8,
            all == le@.take(width as int),
            out@.len() == start.len() + k,
            forall|j: int| 0 <= j < start.len() ==> out@[j] == start[j],
            forall|j: int| 0 <= j < k ==> out@[start.len() + j] == arranged(all, order)[j],
        decreases width - k,
    {
        let byte = match order {
            ByteOrder::Little => le[k],
            ByteOrder::Big => le[width - 1 - k],
        };
        out.push(byte);
        k += 1;
    }
    assert(out@ =~= start + arranged(all, order));
}

/// Reads the number that the `width` bytes at `pos` stand for in the given order.
pub fn read_uint(bytes: &[u8], pos: usize, width: usize, order: ByteOrder) -> (value: u64)
    requires
        width <= 8,
        pos + width <= bytes.len(),
    ensures
        value == uint_value(bytes@.subrange(pos as int, pos + width), order),
        value < radix_pow(width as nat),
{
    let ghost le = arranged(bytes@.subrange(pos as int, pos + width), order);
    let mut value: u64 = 0;
    let mut i: usize = 0;
    proof {
        assert(le.subrange(width as int, width as int) =~= Seq::<u8>::empty());
        lemma_radix_pow_values();
    }
    while i < width
        invariant
            i <= width <= 8,
            pos + width <= bytes.len(),
            le == arranged(bytes@.subrange(pos as int, pos + width), order),
            le.len() == width,
            value == le_value(le.subrange(width - i, width as int)),
            value < radix_pow(i as nat),
        decreases width - i,
    {
        let at: usize = width - 1 - i;
        let byte = match order {
            ByteOrder::Little => bytes[pos + at],
            ByteOrder::Big => bytes[pos + i],
        };
        proof {
            let part = le.subrange(at as int, width as int);
            assert(byte == le[at as int]);
            assert(part.drop_first() =~= le.subrange(width - i, width as int));
            assert(part[0] == byte);
            lemma_radix_pow_step(i as nat);
            lemma_radix_pow_monotonic((i + 1) as nat, 8);
            lemma_radix_pow_values();
        }
        value = value * 256 + byte as u64;
        i += 1;
    }
    proof {
        assert(le.subrange(0, width as int) =~= le);
    }
    value
}

/// The 32 bits of a two's-complement number, as an unsigned number.
pub fn bits_of_i32(value: i32) -> (bits: u32)
    ensures
        bits == to_unsigned(value as int, 4),
{
    proof {
        lemma_radix_pow_values();
    }
    if value >= 0 {
        value as u32
    } else {
        (value - i32::MIN) as u32 + 0x8000_0000u32
    }
}

/// The two's-complement number that 32 bits stand for.
pub fn i32_of_bits(bits: u32) -> (value: i32)
    ensures
        value == to_signed(bits as nat, 4),
{
    proof {
        lemma_radix_pow_values();
    }
    if bits < 0x8000_0000u32 {
        bits as i32
    } else {
        (bits - 0x8000_0000u32) as i32 + i32::MIN
    }
}

/// The 64 bits of a two's-complement number, as an unsigned number.
pub fn bits_of_i64(value: i64) -> (bits: u64)
    ensures
        bits == to_unsigned(value as int, 8),
{
    proof {
        lemma_radix_pow_values();
    }
    if value >= 0 {
        value as u64
    } else {
        (value - i64::MIN) as u64 + 0x8000_0000_0000_0000u64
    }
}

/// The two's-complement number that 64 bits stand for.
pub fn i64_of_bits(bits: u64) -> (value: i64)
    ensures
        value == to_signed(bits as nat, 8),
{
    proof {
        lemma_radix_pow_values();
    }
    if bits < 0x8000_0000_0000_0000u64 {
        bits as i64
    } else {
        (bits - 0x8000_0000_0000_0000u64) as i64 + i64::MIN
    }
}

} // verus!
