//! Facts about the bit operations the readers use, each stated as the
//! arithmetic it stands for.

use vstd::prelude::*;

verus! {

/// A shift the 32-bit readers use, with the weight `2^shift` of its digit.
pub open spec fn is_digit32(shift: u32, weight: u64) -> bool {
    ||| shift == 0 && weight == 0x1
    ||| shift == 7 && weight == 0x80
    ||| shift == 14 && weight == 0x4000
    ||| shift == 21 && weight == 0x20_0000
    ||| shift == 28 && weight == 0x1000_0000
}

/// Masking off the top bit of a byte leaves it modulo 128, and the top bit
/// is set exactly from 128 on; bit 6 of the rest is set exactly from 64 on.
pub proof fn lemma_byte_parts(b: u8)
    by (bit_vector)
    ensures
        b & 0x7f == b % 128,
        (b & 0x80 == 0) <==> b < 128,
        (b & 0x80 != 0) <==> b >= 128,
        (b & 0x40 != 0) <==> b % 128 >= 64,
        (b & 0x40 == 0x40) <==> b % 128 >= 64,
{
}

/// Or-ing one more digit above an accumulator that lies below the digit's
/// weight adds the digit times its weight, modulo 2^32.
pub proof fn lemma_digit_u32(acc: u32, b: u8, shift: u32, weight: u64)
    by (bit_vector)
    requires
        is_digit32(shift, weight),
        (acc as u64) < weight,
    ensures
        ((acc | (((b & 0x7f) as u32) << shift)) as u64) == ((acc as u64) + ((b % 128) as u64)
            * weight) % 0x1_0000_0000,
        shift < 28 ==> ((acc | (((b & 0x7f) as u32) << shift)) as u64) == (acc as u64) + ((b
            % 128) as u64) * weight,
        shift < 28 ==> ((acc | (((b & 0x7f) as u32) << shift)) as u64) < weight * 128,
{
}

/// Two bytes joined by shift and or, least significant first, are the
/// number they spell in base 256.
pub proof fn lemma_join_u16(b0: u8, b1: u8)
    by (bit_vector)
    ensures
        ((b0 as u16) | ((b1 as u16) << 8)) == b0 + 0x100 * b1,
{
}

/// Four bytes joined by shift and or, least significant first, are the
/// number they spell in base 256.
pub proof fn lemma_join_u32(b0: u8, b1: u8, b2: u8, b3: u8)
    by (bit_vector)
    ensures
        ((b0 as u32) | ((b1 as u32) << 8) | ((b2 as u32) << 16) | ((b3 as u32) << 24)) == b0
            + 0x100 * b1 + 0x1_0000 * b2 + 0x100_0000 * b3,
{
}

/// Setting the top bit of a seven-bit value whose bit 6 is set, and reading
/// the byte as signed, takes 128 off; below 128 the signed reading is the
/// value itself.
pub proof fn lemma_extend_i8(b: u8)
    by (bit_vector)
    requires
        b < 128,
    ensures
        b >= 64 ==> ((b | 0x80) as i8) == b - 128,
        (b as i8) == b,
{
}

/// A shift the 64-bit reader uses, with the weight `2^shift` of its digit.
pub open spec fn is_digit64(shift: u32, weight: u64) -> bool {
    ||| shift == 0 && weight == 0x1
    ||| shift == 7 && weight == 0x80
    ||| shift == 14 && weight == 0x4000
    ||| shift == 21 && weight == 0x20_0000
    ||| shift == 28 && weight == 0x1000_0000
    ||| shift == 35 && weight == 0x8_0000_0000
    ||| shift == 42 && weight == 0x400_0000_0000
    ||| shift == 49 && weight == 0x2_0000_0000_0000
    ||| shift == 56 && weight == 0x100_0000_0000_0000
}

/// The signed 32-bit accumulator takes one more digit as the unsigned one
/// does; the fifth digit brings the sum into 32 bits in two's complement.
pub proof fn lemma_digit_i32(acc: i32, b: u8, shift: u32, weight: u64)
    by (bit_vector)
    requires
        is_digit32(shift, weight),
        0 <= acc,
        (acc as u64) < weight,
    ensures
        shift < 28 ==> (acc | (((b & 0x7f) as i32) << shift)) == acc + (b % 128) * weight,
        shift < 28 ==> 0 <= (acc | (((b & 0x7f) as i32) << shift)) < weight * 128,
        shift == 28 && ((acc as u64) + ((b % 128) as u64) * weight) % 0x1_0000_0000 < 0x8000_0000
            ==> (acc | (((b & 0x7f) as i32) << shift)) == ((acc as u64) + ((b % 128) as u64)
            * weight) % 0x1_0000_0000,
        shift == 28 && ((acc as u64) + ((b % 128) as u64) * weight) % 0x1_0000_0000
            >= 0x8000_0000 ==> (acc | (((b & 0x7f) as i32) << shift)) == ((acc as u64) + ((b
            % 128) as u64) * weight) % 0x1_0000_0000 - 0x1_0000_0000,
{
}

/// Or-ing ones into every bit above a short 32-bit field takes the weight
/// of the first bit above it off the value.
pub proof fn lemma_sign_i32(acc: i32, shift: u32, weight: u64)
    by (bit_vector)
    requires
        is_digit32(shift, weight),
        shift < 28,
        0 <= acc,
        (acc as u64) < weight * 128,
    ensures
        (acc | ((-1i32) << ((7 + shift) as u32))) == acc - weight * 128,
{
}

/// The signed 64-bit accumulator takes one more digit; nine digits of
/// seven bits never reach the sign bit.
pub proof fn lemma_digit_i64(acc: i64, b: u8, shift: u32, weight: u64)
    by (bit_vector)
    requires
        is_digit64(shift, weight),
        0 <= acc,
        (acc as u64) < weight,
    ensures
        (acc | (((b & 0x7f) as i64) << shift)) == acc + (b % 128) * weight,
        0 <= (acc | (((b & 0x7f) as i64) << shift)) < weight * 128,
{
}

/// Or-ing ones into every bit above a short 64-bit field takes the weight
/// of the first bit above it off the value.
pub proof fn lemma_sign_i64(acc: i64, shift: u32, weight: u64)
    by (bit_vector)
    requires
        is_digit64(shift, weight),
        shift < 56,
        0 <= acc,
        (acc as u64) < weight * 128,
    ensures
        (acc | ((-1i64) << ((7 + shift) as u32))) == acc - weight * 128,
{
}

/// The low seven bits of a signed number and what an arithmetic shift by
/// seven leaves are its remainder and quotient by 128, the remainder taken
/// from 0 to 127.
pub proof fn lemma_split_i64(v: i64)
    by (bit_vector)
    ensures
        0 <= (v & 0x7f) < 128,
        v == 128 * (v >> 7) + (v & 0x7f),
{
}

/// Adding 15 and clearing the low four bits rounds up to a multiple of 16.
pub proof fn lemma_align_up(x: u32, sum: u32)
    by (bit_vector)
    requires
        x <= 0xffff_fff0,
        sum == x + 15,
    ensures
        (sum & !15u32) == sum / 16 * 16,
        (sum & !15u32) % 16 == 0,
        x <= (sum & !15u32),
        (sum & !15u32) <= sum,
{
}

} // verus!
