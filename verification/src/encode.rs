//! LEB128 writers, and the proof that the readers undo them.

use vstd::prelude::*;
use crate::bits::lemma_split_i64;
use crate::wire::{
    continues, done, lemma_payload_sum_prefix, lemma_pow128_values, lemma_run_len_is, negative,
    payload, payload_sum, pow128, run_len, signed_sum, varint32_at, varint64_at, varuint32_at,
    wrap_i32,
};

verus! {

/// The unsigned LEB128 encoding of `v`: its base-128 digits, least
/// significant first, every digit but the last flagged.
pub open spec fn encode_unsigned(v: nat) -> Seq<u8>
    decreases v,
{
    if v < 128 {
        seq![v as u8]
    } else {
        seq![(v % 128 + 128) as u8] + encode_unsigned(v / 128)
    }
}

/// The signed LEB128 encoding of `v`: the digits of its two's complement
/// form, least significant first, ending with the first digit whose bit 6
/// already tells the sign of all that is left.
pub open spec fn encode_signed(v: int) -> Seq<u8>
    decreases (if v >= 0 { v } else { -v }),
{
    if -64 <= v < 64 {
        seq![(v % 128) as u8]
    } else {
        seq![(v % 128 + 128) as u8] + encode_signed(v / 128)
    }
}

/// Writes `value` as an unsigned LEB128 field.
pub fn encode_varuint32(value: u32) -> (bytes: Vec<u8>)
    ensures
        bytes@ == encode_unsigned(value as nat),
{
    let mut bytes: Vec<u8> = Vec::new();
    let mut left: u32 = value;
    while left >= 128
        invariant
            bytes@ + encode_unsigned(left as nat) == encode_unsigned(value as nat),
        decreases left,
    {
        let ghost written = bytes@;
        let digit: u8 = (left % 128 + 128) as u8;
        bytes.push(digit);
        proof {
            assert(bytes@ + encode_unsigned((left / 128) as nat) =~= written + encode_unsigned(
                left as nat,
            ));
        }
        left = left / 128;
    }
    let ghost written = bytes@;
    bytes.push(left as u8);
    assert(bytes@ =~= written + encode_unsigned(left as nat));
    bytes
}

/// Writes `value` as a signed LEB128 field.
pub fn encode_varint64(value: i64) -> (bytes: Vec<u8>)
    ensures
        bytes@ == encode_signed(value as int),
{
    let mut bytes: Vec<u8> = Vec::new();
    let mut left: i64 = value;
    while left < -64 || left >= 64
        invariant
            bytes@ + encode_signed(left as int) == encode_signed(value as int),
        decreases (if left >= 0 { left as int } else { -left }),
    {
        let ghost written = bytes@;
        proof {
            lemma_split_i64(left);
        }
        let digit: u8 = ((left & 0x7f) as u8) + 128;
        bytes.push(digit);
        proof {
            assert(bytes@ + encode_signed((left >> 7) as int) =~= written + encode_signed(
                left as int,
            ));
        }
        left = left >> 7;
    }
    let ghost written = bytes@;
    proof {
        lemma_split_i64(left);
    }
    bytes.push((left & 0x7f) as u8);
    assert(bytes@ =~= written + encode_signed(left as int));
    bytes
}

/// Writes `value` as a signed LEB128 field.
pub fn encode_varint32(value: i32) -> (bytes: Vec<u8>)
    ensures
        bytes@ == encode_signed(value as int),
{
    encode_varint64(value as i64)
}

/// Whether `bytes` is framed as one field: at least one byte, the flag on
/// every byte but the last.
pub open spec fn is_field(bytes: Seq<u8>) -> bool {
    &&& bytes.len() >= 1
    &&& forall|i: int| 0 <= i < bytes.len() - 1 ==> continues(#[trigger] bytes[i])
    &&& !continues(bytes[bytes.len() - 1])
}

/// Putting a digit in front of a numeral multiplies the numeral by 128 and
/// adds the digit.
pub proof fn lemma_payload_sum_cons(first: u8, others: Seq<u8>, n: nat)
    requires
        n <= others.len(),
    ensures
        payload_sum(seq![first] + others, n + 1) == payload(first) + 128 * payload_sum(others, n),
    decreases n,
{
    let whole = seq![first] + others;
    reveal_with_fuel(payload_sum, 2);
    reveal_with_fuel(pow128, 2);
    if n == 0 {
        assert(whole[0] == first);
    } else {
        lemma_payload_sum_cons(first, others, (n - 1) as nat);
        assert(whole[n as int] == others[n - 1]);
        let d = payload(others[n - 1]);
        let w = pow128((n - 1) as nat);
        assert(d * (128 * w) == 128 * (d * w)) by (nonlinear_arith);
    }
}

/// Putting a flagged byte in front of a field gives a field.
pub proof fn lemma_is_field_cons(first: u8, others: Seq<u8>)
    requires
        continues(first),
        is_field(others),
    ensures
        is_field(seq![first] + others),
{
    let whole = seq![first] + others;
    assert forall|i: int| 0 <= i < whole.len() - 1 implies continues(#[trigger] whole[i]) by {
        if i > 0 {
            assert(whole[i] == others[i - 1]);
        }
    }
    assert(whole[whole.len() - 1] == others[others.len() - 1]);
}

/// The unsigned encoding is one field, as long as the number of digits of
/// `v`, and its numeral is `v`.
pub proof fn lemma_encode_unsigned(v: nat, digits: nat)
    requires
        digits >= 1,
        v < pow128(digits),
    ensures
        is_field(encode_unsigned(v)),
        encode_unsigned(v).len() <= digits,
        payload_sum(encode_unsigned(v), encode_unsigned(v).len()) == v,
    decreases v,
{
    reveal_with_fuel(pow128, 2);
    reveal_with_fuel(payload_sum, 2);
    if v >= 128 {
        let first = (v % 128 + 128) as u8;
        let others = encode_unsigned(v / 128);
        assert(digits >= 2);
        lemma_encode_unsigned(v / 128, (digits - 1) as nat);
        lemma_is_field_cons(first, others);
        lemma_payload_sum_cons(first, others, others.len());
    }
}

/// The signed encoding is one field, as long as the number of digits of
/// `v` in two's complement; its numeral is `v` for `v >= 0` and `v` plus the
/// weight just above the field otherwise, and bit 6 of its last byte is the
/// sign of `v`.
pub proof fn lemma_encode_signed(v: int, digits: nat)
    requires
        digits >= 1,
        -64 * pow128((digits - 1) as nat) <= v < 64 * pow128((digits - 1) as nat),
    ensures
        is_field(encode_signed(v)),
        encode_signed(v).len() <= digits,
        payload_sum(encode_signed(v), encode_signed(v).len()) == (if v >= 0 {
            v
        } else {
            v + pow128(encode_signed(v).len())
        }),
        negative(encode_signed(v)[encode_signed(v).len() - 1]) <==> v < 0,
    decreases (if v >= 0 { v } else { -v }),
{
    reveal_with_fuel(pow128, 2);
    reveal_with_fuel(payload_sum, 2);
    if -64 <= v < 64 {
        let only = encode_signed(v);
        assert(only.len() == 1);
        assert(only[0] == v % 128);
        assert(payload_sum(only, 1) == payload(only[0]) * pow128(0));
    } else {
        let first = (v % 128 + 128) as u8;
        let others = encode_signed(v / 128);
        let whole = seq![first] + others;
        assert(digits >= 2);
        lemma_encode_signed(v / 128, (digits - 1) as nat);
        lemma_is_field_cons(first, others);
        lemma_payload_sum_cons(first, others, others.len());
        assert(whole =~= encode_signed(v));
        assert(whole[others.len() as int] == others[others.len() - 1]);
        assert(payload(first) == v % 128);
        assert(v == 128 * (v / 128) + v % 128);
        assert(pow128(whole.len()) == 128 * pow128(others.len()));
        assert(v < 0 <==> v / 128 < 0);
        assert(payload_sum(whole, whole.len()) == payload(first) + 128 * payload_sum(
            others,
            others.len(),
        ));
    }
}

/// A field followed by anything reads as the field alone: the readers stop
/// at its last byte, and the numeral over its length is its own.
pub proof fn lemma_field_then_tail(field: Seq<u8>, tail: Seq<u8>, limit: nat)
    requires
        is_field(field),
        field.len() <= limit,
    ensures
        run_len(field + tail, limit) == field.len() - 1,
        payload_sum(field + tail, field.len()) == payload_sum(field, field.len()),
        (field + tail)[field.len() - 1] == field[field.len() - 1],
{
    let whole = field + tail;
    assert forall|i: int| 0 <= i < field.len() - 1 implies continues(#[trigger] whole[i]) by {
        assert(whole[i] == field[i]);
    }
    assert(whole[field.len() - 1] == field[field.len() - 1]);
    lemma_run_len_is(whole, limit, (field.len() - 1) as nat);
    lemma_payload_sum_prefix(whole, field, field.len());
}

/// Round trip, unsigned 32-bit: reading the encoding of `v`, whatever
/// follows it, gives `v` and consumes the encoding exactly.
pub proof fn lemma_varuint32_round_trip(v: u32, tail: Seq<u8>)
    ensures
        varuint32_at(encode_unsigned(v as nat) + tail) == done(
            v,
            encode_unsigned(v as nat).len(),
        ),
{
    lemma_pow128_values();
    lemma_encode_unsigned(v as nat, 5);
    lemma_field_then_tail(encode_unsigned(v as nat), tail, 5);
}

/// Round trip, signed 32-bit: reading the encoding of `v`, whatever
/// follows it, gives `v` and consumes the encoding exactly.
pub proof fn lemma_varint32_round_trip(v: i32, tail: Seq<u8>)
    ensures
        varint32_at(encode_signed(v as int) + tail) == done(v, encode_signed(v as int).len()),
{
    lemma_pow128_values();
    lemma_encode_signed(v as int, 5);
    lemma_field_then_tail(encode_signed(v as int), tail, 5);
    let field = encode_signed(v as int);
    let n = field.len();
    let whole = field + tail;
    let sum = signed_sum(whole, n, 5);
    // A field of five bytes carries 35 bits, three more than the value.
    assert(sum == v || (n == 5 && sum == v + 0x8_0000_0000));
    assert(wrap_i32(sum) == v);
}

/// Round trip, signed 64-bit, for every `v` whose encoding the reader
/// accepts as it was meant: from `-2^55` up to, but not including, `2^62`.
/// Reading the encoding of such a `v`, whatever follows it, gives `v` and
/// consumes the encoding exactly.
pub proof fn lemma_varint64_round_trip(v: i64, tail: Seq<u8>)
    requires
        -0x80_0000_0000_0000 <= v < 0x4000_0000_0000_0000,
    ensures
        varint64_at(encode_signed(v as int) + tail) == done(v, encode_signed(v as int).len()),
{
    lemma_pow128_values();
    if v < 0 {
        lemma_encode_signed(v as int, 8);
        lemma_field_then_tail(encode_signed(v as int), tail, 9);
    } else {
        lemma_encode_signed(v as int, 9);
        lemma_field_then_tail(encode_signed(v as int), tail, 9);
    }
}

} // verus!
