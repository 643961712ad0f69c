//! What holds of the format as a whole, proved from the definitions of its
//! fields.

use vstd::prelude::*;
use crate::error::Error;
use crate::wire::{
    continues, lemma_run_len_is, module_at, preamble_at, uint16_at, uint32_at, uint8_at,
    varint32_at, varint64_at, varuint32_at,
};

verus! {

/// The eight bytes every module begins with.
pub open spec fn preamble_bytes() -> Seq<u8> {
    seq![0x00u8, 0x61u8, 0x73u8, 0x6du8, 0x01u8, 0x00u8, 0x00u8, 0x00u8]
}

/// Decoding is a function of the bytes: equal inputs have equal outcomes,
/// the same module or the same refusal, after the same number of bytes.
pub proof fn lemma_decoding_is_a_function(a: Seq<u8>, b: Seq<u8>)
    requires
        a.len() == b.len(),
        forall|i: int| 0 <= i < a.len() ==> a[i] == b[i],
    ensures
        module_at(a) == module_at(b),
{
    assert(a =~= b);
}

/// A fixed-width read is all or nothing: with enough bytes it succeeds and
/// consumes its width; without, it is refused for want of bytes and
/// consumes none.
pub proof fn lemma_fixed_width_is_atomic(bytes: Seq<u8>)
    ensures
        bytes.len() >= 1 ==> uint8_at(bytes).result is Ok && uint8_at(bytes).consumed == 1,
        bytes.len() < 1 ==> uint8_at(bytes).result == Err::<u8, Error>(Error::BufferEndReached)
            && uint8_at(bytes).consumed == 0,
        bytes.len() >= 2 ==> uint16_at(bytes).result is Ok && uint16_at(bytes).consumed == 2,
        bytes.len() < 2 ==> uint16_at(bytes).result == Err::<u16, Error>(Error::BufferEndReached)
            && uint16_at(bytes).consumed == 0,
        bytes.len() >= 4 ==> uint32_at(bytes).result is Ok && uint32_at(bytes).consumed == 4,
        bytes.len() < 4 ==> uint32_at(bytes).result == Err::<u32, Error>(Error::BufferEndReached)
            && uint32_at(bytes).consumed == 0,
{
}

/// Five flagged bytes are refused as an invalid 32-bit field, never as a
/// want of bytes, whether or not anything follows them.
pub proof fn lemma_overlong32_is_invalid(bytes: Seq<u8>)
    requires
        bytes.len() >= 5,
        forall|i: int| 0 <= i < 5 ==> continues(#[trigger] bytes[i]),
    ensures
        varuint32_at(bytes).result == Err::<u32, Error>(Error::InvalidVaruint32),
        varint32_at(bytes).result == Err::<i32, Error>(Error::InvalidVarint32),
        varuint32_at(bytes).consumed == 5,
        varint32_at(bytes).consumed == 5,
{
    lemma_run_len_is(bytes, 5, 5);
}

/// Nine flagged bytes are refused as an invalid 64-bit field, never as a
/// want of bytes.
pub proof fn lemma_overlong64_is_invalid(bytes: Seq<u8>)
    requires
        bytes.len() >= 9,
        forall|i: int| 0 <= i < 9 ==> continues(#[trigger] bytes[i]),
    ensures
        varint64_at(bytes).result == Err::<i64, Error>(Error::InvalidVarint64),
        varint64_at(bytes).consumed == 9,
{
    lemma_run_len_is(bytes, 9, 9);
}

/// A flagged run that the input cuts short before its limit is refused for
/// want of bytes, with every byte of the input consumed.
pub proof fn lemma_truncated32_is_end(bytes: Seq<u8>)
    requires
        bytes.len() < 5,
        forall|i: int| 0 <= i < bytes.len() ==> continues(#[trigger] bytes[i]),
    ensures
        varuint32_at(bytes).result == Err::<u32, Error>(Error::BufferEndReached),
        varint32_at(bytes).result == Err::<i32, Error>(Error::BufferEndReached),
        varuint32_at(bytes).consumed == bytes.len(),
        varint32_at(bytes).consumed == bytes.len(),
{
    lemma_run_len_is(bytes, 5, bytes.len());
}

/// The preamble is accepted exactly when the input begins with the eight
/// preamble bytes.
pub proof fn lemma_preamble_is_its_bytes(bytes: Seq<u8>)
    ensures
        preamble_at(bytes).result is Ok <==> bytes.len() >= 8 && bytes.take(8) == preamble_bytes(),
{
    if bytes.len() >= 8 {
        let tail = bytes.skip(4);
        assert(tail[0] == bytes[4] && tail[1] == bytes[5] && tail[2] == bytes[6] && tail[3]
            == bytes[7]);
        let head = bytes.take(8);
        assert(head[0] == bytes[0] && head[1] == bytes[1] && head[2] == bytes[2] && head[3]
            == bytes[3]);
        assert(head[4] == bytes[4] && head[5] == bytes[5] && head[6] == bytes[6] && head[7]
            == bytes[7]);
        if preamble_at(bytes).result is Ok {
            assert(head =~= preamble_bytes());
        }
    } else if bytes.len() >= 4 {
        assert(bytes.skip(4).len() < 4);
    }
}

} // verus!
