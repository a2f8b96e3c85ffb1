//! Big-endian operands: how fixed-width integers lie in the bytecode.

use vstd::prelude::*;

verus! {

/// The four bytes of `value`, most significant first.
pub open spec fn u32_be(value: u32) -> Seq<u8> {
    seq![
        (value / 0x100_0000) as u8,
        ((value / 0x1_0000) % 0x100) as u8,
        ((value / 0x100) % 0x100) as u8,
        (value % 0x100) as u8,
    ]
}

/// The number that four bytes, most significant first, stand for.
pub open spec fn be_u32(bytes: Seq<u8>) -> u32
    recommends
        bytes.len() == 4,
{
    (bytes[0] as int * 0x100_0000 + bytes[1] as int * 0x1_0000 + bytes[2] as int * 0x100
        + bytes[3] as int) as u32
}

/// The eight bytes of `value`, most significant first.
pub open spec fn u64_be(value: u64) -> Seq<u8> {
    u32_be((value / 0x1_0000_0000) as u32) + u32_be((value % 0x1_0000_0000) as u32)
}

/// The number that eight bytes, most significant first, stand for.
pub open spec fn be_u64(bytes: Seq<u8>) -> u64
    recommends
        bytes.len() == 8,
{
    (be_u32(bytes.subrange(0, 4)) as int * 0x1_0000_0000 + be_u32(bytes.subrange(4, 8)) as int) as u64
}

/// The signed integer whose two's complement pattern is `bits`.
pub open spec fn i64_of_bits(bits: u64) -> i64 {
    if bits < 0x8000_0000_0000_0000 {
        bits as i64
    } else {
        (bits - 0x1_0000_0000_0000_0000) as i64
    }
}

/// The two's complement pattern of `value`.
pub open spec fn bits_of_i64(value: i64) -> u64 {
    if value >= 0 {
        value as u64
    } else {
        (value + 0x1_0000_0000_0000_0000) as u64
    }
}

/// Appends the big-endian bytes of `value` to `out`.
pub fn push_u32(out: &mut Vec<u8>, value: u32)
    ensures
        final(out)@ == old(out)@ + u32_be(value),
{
    out.push((value / 0x100_0000) as u8);
    out.push(((value / 0x1_0000) % 0x100) as u8);
    out.push(((value / 0x100) % 0x100) as u8);
    out.push((value % 0x100) as u8);
    assert(out@ =~= old(out)@ + u32_be(value));
}

/// Appends the big-endian bytes of `value` to `out`.
pub fn push_u64(out: &mut Vec<u8>, value: u64)
    ensures
        final(out)@ == old(out)@ + u64_be(value),
{
    push_u32(out, (value / 0x1_0000_0000) as u32);
    push_u32(out, (value % 0x1_0000_0000) as u32);
    assert(out@ =~= old(out)@ + u64_be(value));
}

/// Reads the big-endian number in the four bytes from `at` on.
pub fn read_u32(bytes: &Vec<u8>, at: usize) -> (value: u32)
    requires
        at + 4 <= bytes.len(),
    ensures
        value == be_u32(bytes@.subrange(at as int, at + 4)),
{
    let b0: u32 = bytes[at] as u32;
    let b1: u32 = bytes[at + 1] as u32;
    let b2: u32 = bytes[at + 2] as u32;
    let b3: u32 = bytes[at + 3] as u32;
    b0 * 0x100_0000 + b1 * 0x1_0000 + b2 * 0x100 + b3
}

/// Reads the big-endian number in the eight bytes from `at` on.
pub fn read_u64(bytes: &Vec<u8>, at: usize) -> (value: u64)
    requires
        at + 8 <= bytes.len(),
    ensures
        value == be_u64(bytes@.subrange(at as int, at + 8)),
{
    let high: u64 = read_u32(bytes, at) as u64;
    let low: u64 = read_u32(bytes, at + 4) as u64;
    proof {
        let whole = bytes@.subrange(at as int, at + 8);
        assert(whole.subrange(0, 4) =~= bytes@.subrange(at as int, at + 4));
        assert(whole.subrange(4, 8) =~= bytes@.subrange(at + 4, at + 8));
    }
    high * 0x1_0000_0000 + low
}

/// Writes the big-endian bytes of `value` over the four bytes from `at` on.
pub fn write_u32(bytes: &mut Vec<u8>, at: usize, value: u32)
    requires
        at + 4 <= old(bytes).len(),
    ensures
        final(bytes)@ == old(bytes)@.subrange(0, at as int) + u32_be(value) + old(bytes)@.subrange(
            at + 4,
            old(bytes).len() as int,
        ),
{
    bytes.set(at, (value / 0x100_0000) as u8);
    bytes.set(at + 1, ((value / 0x1_0000) % 0x100) as u8);
    bytes.set(at + 2, ((value / 0x100) % 0x100) as u8);
    bytes.set(at + 3, (value % 0x100) as u8);
    assert(bytes@ =~= old(bytes)@.subrange(0, at as int) + u32_be(value) + old(bytes)@.subrange(
        at + 4,
        old(bytes).len() as int,
    ));
}

/// The signed integer whose two's complement pattern is `bits`.
pub fn int_from_bits(bits: u64) -> (value: i64)
    ensures
        value == i64_of_bits(bits),
{
    if bits < 0x8000_0000_0000_0000 {
        bits as i64
    } else {
        ((bits - 0x8000_0000_0000_0000) as i64) + i64::MIN
    }
}

/// The two's complement pattern of `value`.
pub fn int_to_bits(value: i64) -> (bits: u64)
    ensures
        bits == bits_of_i64(value),
{
    if value >= 0 {
        value as u64
    } else {
        ((value - i64::MIN) as u64) + 0x8000_0000_0000_0000
    }
}

/// Four bytes written and read back give the number they were made from.
pub proof fn lemma_u32_round_trip(value: u32)
    ensures
        u32_be(value).len() == 4,
        be_u32(u32_be(value)) == value,
{
}

/// Any four bytes are the encoding of the number they stand for.
pub proof fn lemma_be_u32_round_trip(bytes: Seq<u8>)
    requires
        bytes.len() == 4,
    ensures
        u32_be(be_u32(bytes)) == bytes,
{
    assert(u32_be(be_u32(bytes)) =~= bytes);
}

/// Eight bytes written and read back give the number they were made from.
pub proof fn lemma_u64_round_trip(value: u64)
    ensures
        u64_be(value).len() == 8,
        be_u64(u64_be(value)) == value,
{
    let high = (value / 0x1_0000_0000) as u32;
    let low = (value % 0x1_0000_0000) as u32;
    assert(u64_be(value).subrange(0, 4) =~= u32_be(high));
    assert(u64_be(value).subrange(4, 8) =~= u32_be(low));
    lemma_u32_round_trip(high);
    lemma_u32_round_trip(low);
}

/// Any eight bytes are the encoding of the number they stand for.
pub proof fn lemma_be_u64_round_trip(bytes: Seq<u8>)
    requires
        bytes.len() == 8,
    ensures
        u64_be(be_u64(bytes)) == bytes,
{
    lemma_be_u32_round_trip(bytes.subrange(0, 4));
    lemma_be_u32_round_trip(bytes.subrange(4, 8));
    assert(u64_be(be_u64(bytes)) =~= bytes);
}

/// A signed integer and its two's complement pattern determine each other.
pub proof fn lemma_bits_round_trip(value: i64, bits: u64)
    ensures
        i64_of_bits(bits_of_i64(value)) == value,
        bits_of_i64(i64_of_bits(bits)) == bits,
{
}

} // verus!
