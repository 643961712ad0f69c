//! The wire format as mathematics: what each field at the front of a byte
//! sequence denotes, and how many bytes a reader steps over in finding out.

use vstd::prelude::*;
use crate::error::Error;

verus! {

/// What a read of one field comes to: the value or the refusal, and the
/// number of bytes the cursor has passed when the read ends.
pub struct Outcome<T> {
    pub result: Result<T, Error>,
    pub consumed: nat,
}

/// A read that produced `value` from `consumed` bytes.
pub open spec fn done<T>(value: T, consumed: nat) -> Outcome<T> {
    Outcome { result: Ok(value), consumed }
}

/// A read refused with `error` after the cursor passed `consumed` bytes.
pub open spec fn refused<T>(error: Error, consumed: nat) -> Outcome<T> {
    Outcome { result: Err(error), consumed }
}

/// The magic number, the bytes `\0asm` read as a little-endian integer.
pub const MAGIC_NUMBER: u32 = 0x6d73_6100;

/// The one supported version.
pub const VERSION_NUMBER: u32 = 0x1;

/// The id of the section whose payload holds the signatures.
pub const SIGNATURE_SECTION: u8 = 1;

/// The most bytes a 32-bit LEB128 field may take.
pub open spec fn max_len32() -> nat {
    5
}

/// The most bytes a 64-bit LEB128 field may take in this format.
pub open spec fn max_len64() -> nat {
    9
}

// Fixed-width fields

/// An 8-bit unsigned integer: the next byte.
pub open spec fn uint8_at(bytes: Seq<u8>) -> Outcome<u8> {
    if bytes.len() < 1 {
        refused(Error::BufferEndReached, 0)
    } else {
        done(bytes[0], 1)
    }
}

/// A 16-bit unsigned integer: two bytes, least significant first.
pub open spec fn uint16_at(bytes: Seq<u8>) -> Outcome<u16> {
    if bytes.len() < 2 {
        refused(Error::BufferEndReached, 0)
    } else {
        done((bytes[0] + 0x100 * bytes[1]) as u16, 2)
    }
}

/// A 32-bit unsigned integer: four bytes, least significant first.
pub open spec fn uint32_at(bytes: Seq<u8>) -> Outcome<u32> {
    if bytes.len() < 4 {
        refused(Error::BufferEndReached, 0)
    } else {
        done(
            (bytes[0] + 0x100 * bytes[1] + 0x1_0000 * bytes[2] + 0x100_0000 * bytes[3]) as u32,
            4,
        )
    }
}

// LEB128 digits

/// Whether a byte's continuation flag, its top bit, is set.
pub open spec fn continues(b: u8) -> bool {
    b >= 128
}

/// The seven payload bits of a byte.
pub open spec fn payload(b: u8) -> nat {
    (b % 128) as nat
}

/// Whether the sign bit of a byte's payload, bit 6, is set.
pub open spec fn negative(b: u8) -> bool {
    b % 128 >= 64
}

/// 128 to the power `n`: the weight of digit `n`.
pub open spec fn pow128(n: nat) -> nat
    decreases n,
{
    if n == 0 {
        1
    } else {
        128 * pow128((n - 1) as nat)
    }
}

/// The payloads of the first `n` bytes read as a base-128 numeral, least
/// significant digit first.
pub open spec fn payload_sum(bytes: Seq<u8>, n: nat) -> nat
    decreases n,
{
    if n == 0 {
        0
    } else {
        payload_sum(bytes, (n - 1) as nat) + payload(bytes[n - 1]) * pow128((n - 1) as nat)
    }
}

/// How many bytes at the front of `bytes` carry the continuation flag,
/// counting no further than `limit` bytes.
pub open spec fn run_len(bytes: Seq<u8>, limit: nat) -> nat
    decreases limit,
{
    if limit == 0 || bytes.len() == 0 || !continues(bytes[0]) {
        0
    } else {
        1 + run_len(bytes.skip(1), (limit - 1) as nat)
    }
}

/// The base-128 numeral of the first `n` bytes read as a signed number:
/// where fewer than `limit` bytes were needed and the last payload has its
/// sign bit set, the numeral stands for itself less `128^n`.
pub open spec fn signed_sum(bytes: Seq<u8>, n: nat, limit: nat) -> int {
    if 0 < n < limit && negative(bytes[n - 1]) {
        payload_sum(bytes, n) - pow128(n)
    } else {
        payload_sum(bytes, n) as int
    }
}

/// The 32-bit two's complement number congruent to `x` modulo 2^32.
pub open spec fn wrap_i32(x: int) -> i32 {
    let low = x % 0x1_0000_0000;
    if low < 0x8000_0000 {
        low as i32
    } else {
        (low - 0x1_0000_0000) as i32
    }
}

// LEB128 fields

/// A one-bit flag: one byte that is 0 or 1.
pub open spec fn varuint1_at(bytes: Seq<u8>) -> Outcome<bool> {
    if bytes.len() < 1 {
        refused(Error::BufferEndReached, 0)
    } else if bytes[0] == 1 {
        done(true, 1)
    } else if bytes[0] == 0 {
        done(false, 1)
    } else {
        refused(Error::InvalidVaruint1, 1)
    }
}

/// An unsigned 7-bit field: one byte without the continuation flag.
pub open spec fn varuint7_at(bytes: Seq<u8>) -> Outcome<u8> {
    if bytes.len() < 1 {
        refused(Error::BufferEndReached, 0)
    } else if continues(bytes[0]) {
        refused(Error::InvalidVaruint7, 1)
    } else {
        done(bytes[0], 1)
    }
}

/// A signed 7-bit field: one byte without the continuation flag, its
/// payload read in two's complement.
pub open spec fn varint7_at(bytes: Seq<u8>) -> Outcome<i8> {
    if bytes.len() < 1 {
        refused(Error::BufferEndReached, 0)
    } else if continues(bytes[0]) {
        refused(Error::InvalidVarint7, 1)
    } else if negative(bytes[0]) {
        done((bytes[0] - 128) as i8, 1)
    } else {
        done(bytes[0] as i8, 1)
    }
}

/// An unsigned 32-bit field. The bytes that carry the flag are followed by
/// one that does not: together they are the field, and its value is their
/// numeral modulo 2^32. Five flagged bytes are too many, whatever follows;
/// a flagged run that reaches the end of the input is cut short.
pub open spec fn varuint32_at(bytes: Seq<u8>) -> Outcome<u32> {
    let run = run_len(bytes, max_len32());
    if run == max_len32() {
        refused(Error::InvalidVaruint32, run)
    } else if run == bytes.len() {
        refused(Error::BufferEndReached, run)
    } else {
        done((payload_sum(bytes, run + 1) % 0x1_0000_0000) as u32, run + 1)
    }
}

/// A signed 32-bit field: framed as the unsigned one, its numeral read as a
/// signed number and brought into 32 bits.
pub open spec fn varint32_at(bytes: Seq<u8>) -> Outcome<i32> {
    let run = run_len(bytes, max_len32());
    if run == max_len32() {
        refused(Error::InvalidVarint32, run)
    } else if run == bytes.len() {
        refused(Error::BufferEndReached, run)
    } else {
        done(wrap_i32(signed_sum(bytes, run + 1, max_len32())), run + 1)
    }
}

/// A signed 64-bit field of at most nine bytes: framed as the 32-bit ones,
/// its numeral read as a signed number. A nine-byte field has 63 payload
/// bits and is never negative.
pub open spec fn varint64_at(bytes: Seq<u8>) -> Outcome<i64> {
    let run = run_len(bytes, max_len64());
    if run == max_len64() {
        refused(Error::InvalidVarint64, run)
    } else if run == bytes.len() {
        refused(Error::BufferEndReached, run)
    } else {
        done(signed_sum(bytes, run + 1, max_len64()) as i64, run + 1)
    }
}

// Preamble, sections, module

/// The preamble: the magic number, then the version, each a 32-bit
/// integer that must equal its constant. A wrong magic number is refused
/// before the version is looked at.
pub open spec fn preamble_at(bytes: Seq<u8>) -> Outcome<()> {
    let magic = uint32_at(bytes);
    let version = uint32_at(bytes.skip(4));
    if magic.result is Err {
        refused(Error::BufferEndReached, 0)
    } else if magic.result != Ok::<u32, Error>(MAGIC_NUMBER) {
        refused(Error::InvalidMagicNumber, 4)
    } else if version.result is Err {
        refused(Error::BufferEndReached, 4)
    } else if version.result != Ok::<u32, Error>(VERSION_NUMBER) {
        refused(Error::InvalidVersionNumber, 8)
    } else {
        done((), 8)
    }
}

/// One section of the body: its id and the bytes of its payload.
pub struct Section {
    pub id: u8,
    pub payload: Seq<u8>,
}

/// A section: an id (unsigned 7-bit), a length (unsigned 32-bit), and as
/// many payload bytes as the length says. A length that overruns the input
/// is refused with the cursor behind the length, before any payload.
pub open spec fn section_at(bytes: Seq<u8>) -> Outcome<Section> {
    let id = varuint7_at(bytes);
    let length = varuint32_at(bytes.skip(1));
    let start = 1 + length.consumed;
    if id.result is Err {
        refused(id.result->Err_0, id.consumed)
    } else if length.result is Err {
        refused(length.result->Err_0, start)
    } else if start + length.result->Ok_0 > bytes.len() {
        refused(Error::BufferEndReached, start)
    } else {
        done(
            Section {
                id: id.result->Ok_0,
                payload: bytes.subrange(start as int, start + length.result->Ok_0),
            },
            start + length.result->Ok_0 as nat,
        )
    }
}

/// What a section adds to the signature blocks found so far: its payload,
/// if it is the signature section; nothing, whatever its id, otherwise.
pub open spec fn gather(found: Seq<Seq<u8>>, section: Section) -> Seq<Seq<u8>> {
    if section.id == SIGNATURE_SECTION {
        found.push(section.payload)
    } else {
        found
    }
}

/// The body: sections one after another until the input ends, each folded
/// into `found`. The first refusal ends the walk.
pub open spec fn body_at(bytes: Seq<u8>, found: Seq<Seq<u8>>) -> Outcome<Seq<Seq<u8>>>
    decreases bytes.len(),
{
    let first = section_at(bytes);
    if bytes.len() == 0 {
        done(found, 0)
    } else if first.result is Err {
        refused(first.result->Err_0, first.consumed)
    } else {
        let others = body_at(bytes.skip(first.consumed as int), gather(found, first.result->Ok_0));
        Outcome { result: others.result, consumed: first.consumed + others.consumed }
    }
}

/// A whole module: the preamble, then the body. The value is the sequence
/// of signature blocks.
pub open spec fn module_at(bytes: Seq<u8>) -> Outcome<Seq<Seq<u8>>> {
    let head = preamble_at(bytes);
    let body = body_at(bytes.skip(8), Seq::empty());
    if head.result is Err {
        refused(head.result->Err_0, head.consumed)
    } else {
        Outcome { result: body.result, consumed: 8 + body.consumed }
    }
}

// Facts about runs and numerals

/// Weights of the digits the readers meet.
pub proof fn lemma_pow128_values()
    ensures
        pow128(0) == 0x1,
        pow128(1) == 0x80,
        pow128(2) == 0x4000,
        pow128(3) == 0x20_0000,
        pow128(4) == 0x1000_0000,
        pow128(5) == 0x8_0000_0000,
        pow128(6) == 0x400_0000_0000,
        pow128(7) == 0x2_0000_0000_0000,
        pow128(8) == 0x100_0000_0000_0000,
        pow128(9) == 0x8000_0000_0000_0000,
{
    reveal_with_fuel(pow128, 11);
}

/// A numeral of `n` digits lies below `128^n`.
pub proof fn lemma_payload_sum_bound(bytes: Seq<u8>, n: nat)
    ensures
        payload_sum(bytes, n) < pow128(n),
    decreases n,
{
    if n > 0 {
        lemma_payload_sum_bound(bytes, (n - 1) as nat);
        let w = pow128((n - 1) as nat);
        let d = payload(bytes[n - 1]);
        assert(d * w <= 127 * w) by (nonlinear_arith)
            requires
                d <= 127,
                w >= 0,
        ;
    }
}

/// A numeral reads only its first `n` bytes.
pub proof fn lemma_payload_sum_prefix(a: Seq<u8>, b: Seq<u8>, n: nat)
    requires
        n <= a.len(),
        n <= b.len(),
        forall|i: int| 0 <= i < n ==> a[i] == b[i],
    ensures
        payload_sum(a, n) == payload_sum(b, n),
    decreases n,
{
    if n > 0 {
        lemma_payload_sum_prefix(a, b, (n - 1) as nat);
    }
}

/// If the first `k` bytes all carry the flag, and the run stops there (at
/// the limit, at the end of the input, or at a byte without the flag), then
/// the run has length `k`.
pub proof fn lemma_run_len_is(bytes: Seq<u8>, limit: nat, k: nat)
    requires
        k <= limit,
        k <= bytes.len(),
        forall|i: int| 0 <= i < k ==> continues(#[trigger] bytes[i]),
        k == limit || k == bytes.len() || !continues(bytes[k as int]),
    ensures
        run_len(bytes, limit) == k,
    decreases k,
{
    if k > 0 {
        let tail = bytes.skip(1);
        assert forall|i: int| 0 <= i < k - 1 implies continues(#[trigger] tail[i]) by {
            assert(tail[i] == bytes[i + 1]);
        }
        if k < limit && k < bytes.len() {
            assert(tail[k - 1] == bytes[k as int]);
        }
        lemma_run_len_is(tail, (limit - 1) as nat, (k - 1) as nat);
    }
}

} // verus!
