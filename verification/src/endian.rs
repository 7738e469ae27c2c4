//! Little-endian encoding of fixed-width integers.
use vstd::prelude::*;

verus! {

/// The four bytes of `value`, least significant first.
pub open spec fn u32_le(value: u32) -> Seq<u8> {
    seq![
        (value & 0xff) as u8,
        ((value >> 8) & 0xff) as u8,
        ((value >> 16) & 0xff) as u8,
        ((value >> 24) & 0xff) as u8,
    ]
}

/// The integer whose four bytes, least significant first, are `bytes`.
pub open spec fn u32_of_le(bytes: Seq<u8>) -> u32 {
    (bytes[0] as u32) | ((bytes[1] as u32) << 8) | ((bytes[2] as u32) << 16) | ((bytes[3] as u32)
        << 24)
}

/// The eight bytes of `value`, least significant first.
pub open spec fn u64_le(value: u64) -> Seq<u8> {
    u32_le((value & 0xffff_ffff) as u32) + u32_le((value >> 32) as u32)
}

/// The integer whose eight bytes, least significant first, are `bytes`.
pub open spec fn u64_of_le(bytes: Seq<u8>) -> u64 {
    (u32_of_le(bytes.subrange(0, 4)) as u64) | ((u32_of_le(bytes.subrange(4, 8)) as u64) << 32)
}

/// Decoding the encoding of a 32-bit integer gives it back.
pub proof fn law_u32_round_trip(value: u32)
    ensures
        u32_le(value).len() == 4,
        u32_of_le(u32_le(value)) == value,
{
    assert(((value & 0xff) as u8 as u32) | (((value >> 8) & 0xff) as u8 as u32) << 8 | (((value
        >> 16) & 0xff) as u8 as u32) << 16 | (((value >> 24) & 0xff) as u8 as u32) << 24 == value)
        by (bit_vector);
}

/// Encoding the integer decoded from four bytes gives those bytes back.
pub proof fn law_u32_bytes_round_trip(bytes: Seq<u8>)
    requires
        bytes.len() == 4,
    ensures
        u32_le(u32_of_le(bytes)) == bytes,
{
    let (a, b, c, d) = (bytes[0], bytes[1], bytes[2], bytes[3]);
    let v = (a as u32) | ((b as u32) << 8) | ((c as u32) << 16) | ((d as u32) << 24);
    assert((v & 0xff) as u8 == a && ((v >> 8) & 0xff) as u8 == b && ((v >> 16) & 0xff) as u8 == c
        && ((v >> 24) & 0xff) as u8 == d) by (bit_vector)
        requires
            v == (a as u32) | ((b as u32) << 8) | ((c as u32) << 16) | ((d as u32) << 24),
    ;
    assert(u32_le(v) =~= bytes);
}

/// Decoding the encoding of a 64-bit integer gives it back.
pub proof fn law_u64_round_trip(value: u64)
    ensures
        u64_le(value).len() == 8,
        u64_of_le(u64_le(value)) == value,
{
    let low = (value & 0xffff_ffff) as u32;
    let high = (value >> 32) as u32;
    law_u32_round_trip(low);
    law_u32_round_trip(high);
    assert(u64_le(value).subrange(0, 4) =~= u32_le(low));
    assert(u64_le(value).subrange(4, 8) =~= u32_le(high));
    assert((low as u64) | ((high as u64) << 32) == value) by (bit_vector)
        requires
            low == (value & 0xffff_ffff) as u32,
            high == (value >> 32) as u32,
    ;
}

/// Encoding the integer decoded from eight bytes gives those bytes back.
pub proof fn law_u64_bytes_round_trip(bytes: Seq<u8>)
    requires
        bytes.len() == 8,
    ensures
        u64_le(u64_of_le(bytes)) == bytes,
{
    let low = u32_of_le(bytes.subrange(0, 4));
    let high = u32_of_le(bytes.subrange(4, 8));
    law_u32_bytes_round_trip(bytes.subrange(0, 4));
    law_u32_bytes_round_trip(bytes.subrange(4, 8));
    let v = (low as u64) | ((high as u64) << 32);
    assert((v & 0xffff_ffff) as u32 == low && (v >> 32) as u32 == high) by (bit_vector)
        requires
            v == (low as u64) | ((high as u64) << 32),
    ;
    assert(u64_le(v) =~= bytes);
}

/// Append the four bytes of `value`, least significant first.
pub fn push_u32_le(out: &mut Vec<u8>, value: u32)
    ensures
        final(out)@ == old(out)@ + u32_le(value),
{
    out.push((value & 0xff) as u8);
    out.push(((value >> 8) & 0xff) as u8);
    out.push(((value >> 16) & 0xff) as u8);
    out.push(((value >> 24) & 0xff) as u8);
    assert(out@ =~= old(out)@ + u32_le(value));
}

/// Append the eight bytes of `value`, least significant first.
pub fn push_u64_le(out: &mut Vec<u8>, value: u64)
    ensures
        final(out)@ == old(out)@ + u64_le(value),
{
    push_u32_le(out, (value & 0xffff_ffff) as u32);
    push_u32_le(out, (value >> 32) as u32);
    assert(out@ =~= old(out)@ + u64_le(value));
}

/// Read a 32-bit integer from the four bytes at `at`.
pub fn read_u32_le(bytes: &[u8], at: usize) -> (value: u32)
    requires
        at + 4 <= bytes@.len(),
    ensures
        value == u32_of_le(bytes@.subrange(at as int, at + 4)),
{
    (bytes[at] as u32) | ((bytes[at + 1] as u32) << 8) | ((bytes[at + 2] as u32) << 16) | ((bytes[at
        + 3] as u32) << 24)
}

/// Read a 64-bit integer from the eight bytes at `at`.
pub fn read_u64_le(bytes: &[u8], at: usize) -> (value: u64)
    requires
        at + 8 <= bytes@.len(),
    ensures
        value == u64_of_le(bytes@.subrange(at as int, at + 8)),
{
    assert(bytes.len() == bytes@.len());
    let low = read_u32_le(bytes, at);
    let high = read_u32_le(bytes, at + 4);
    let ghost window = bytes@.subrange(at as int, at + 8);
    assert(window.subrange(0, 4) =~= bytes@.subrange(at as int, at + 4));
    assert(window.subrange(4, 8) =~= bytes@.subrange(at + 4, at + 8));
    (low as u64) | ((high as u64) << 32)
}

/// Four bytes, least significant first, as a number.
pub open spec fn number_of_four(bytes: Seq<u8>) -> int {
    bytes[0] + 0x100 * bytes[1] + 0x1_0000 * bytes[2] + 0x100_0000 * bytes[3]
}

pub proof fn lemma_number_of_four(bytes: Seq<u8>)
    requires
        bytes.len() == 4,
    ensures
        u32_of_le(bytes) == number_of_four(bytes),
{
    let (a, b, c, d) = (bytes[0], bytes[1], bytes[2], bytes[3]);
    assert((a as u32) | ((b as u32) << 8) | ((c as u32) << 16) | ((d as u32) << 24) == a + 0x100 * b
        + 0x1_0000 * c + 0x100_0000 * d) by (bit_vector);
}

pub proof fn lemma_number_of_eight(bytes: Seq<u8>)
    requires
        bytes.len() == 8,
    ensures
        u64_of_le(bytes) == number_of_four(bytes.subrange(0, 4)) + 0x1_0000_0000 * number_of_four(
            bytes.subrange(4, 8),
        ),
{
    lemma_number_of_four(bytes.subrange(0, 4));
    lemma_number_of_four(bytes.subrange(4, 8));
    let low = u32_of_le(bytes.subrange(0, 4));
    let high = u32_of_le(bytes.subrange(4, 8));
    assert((low as u64) | ((high as u64) << 32) == low + 0x1_0000_0000 * high) by (bit_vector);
}

/// An integer is appended as the digits of its value to the base 256, least
/// significant first, behind what was there.
pub proof fn law_appended_bytes_are_digits(
    short: &mut Vec<u8>,
    short_value: u32,
    long: &mut Vec<u8>,
    long_value: u64,
    done: (),
)
    requires
        call_ensures(push_u32_le, (short, short_value), done),
        call_ensures(push_u64_le, (long, long_value), done),
    ensures
        final(short)@.len() == old(short)@.len() + 4,
        final(short)@.take(old(short)@.len() as int) == old(short)@,
        number_of_four(final(short)@.skip(old(short)@.len() as int)) == short_value,
        final(long)@.len() == old(long)@.len() + 8,
        final(long)@.take(old(long)@.len() as int) == old(long)@,
        ({
            let bytes = final(long)@.skip(old(long)@.len() as int);
            number_of_four(bytes.subrange(0, 4)) + 0x1_0000_0000 * number_of_four(
                bytes.subrange(4, 8),
            ) == long_value
        }),
{
    law_u32_round_trip(short_value);
    law_u64_round_trip(long_value);
    assert(final(short)@.skip(old(short)@.len() as int) =~= u32_le(short_value));
    assert(final(long)@.skip(old(long)@.len() as int) =~= u64_le(long_value));
    lemma_number_of_four(u32_le(short_value));
    lemma_number_of_eight(u64_le(long_value));
}

/// What is read is the value of the digits that stand at the place asked for.
pub proof fn law_read_bytes_are_digits(bytes: &[u8], at: usize, short: u32, long: u64)
    requires
        at + 8 <= bytes@.len(),
        call_ensures(read_u32_le, (bytes, at), short),
        call_ensures(read_u64_le, (bytes, at), long),
    ensures
        short == number_of_four(bytes@.subrange(at as int, at + 4)),
        long == short + 0x1_0000_0000 * number_of_four(bytes@.subrange(at + 4, at + 8)),
{
    let window = bytes@.subrange(at as int, at + 8);
    lemma_number_of_four(bytes@.subrange(at as int, at + 4));
    lemma_number_of_eight(window);
    assert(window.subrange(0, 4) =~= bytes@.subrange(at as int, at + 4));
    assert(window.subrange(4, 8) =~= bytes@.subrange(at + 4, at + 8));
}

} // verus!
