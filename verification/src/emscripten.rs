//! The memory layout an Emscripten-built module expects: where its stack
//! and its dynamic memory begin, and the word that tells it so.

use vstd::prelude::*;
use byteorder::{ByteOrder, LittleEndian};
use crate::bits::lemma_align_up;

verus! {

/// Bytes set aside for the stack.
pub const TOTAL_STACK: u32 = 5_242_880;

/// Distance from the end of the static data to the word that holds the top
/// of dynamic memory.
pub const DYNAMICTOP_PTR_DIFF: u32 = 1088;

/// Size of the static data.
pub const STATIC_BUMP: u32 = 215_536;

/// The least multiple of 16 that is not below `address`.
pub open spec fn aligned(address: int) -> int {
    (address + 15) / 16 * 16
}

/// Where the word that holds the top of dynamic memory lies.
pub open spec fn dynamictop_ptr_of(static_bump: int) -> int {
    static_bump + DYNAMICTOP_PTR_DIFF
}

/// Where the stack begins: the first aligned address behind that word.
pub open spec fn stacktop_of(static_bump: int) -> int {
    aligned(dynamictop_ptr_of(static_bump) + 4)
}

/// Where the stack ends.
pub open spec fn stack_max_of(static_bump: int) -> int {
    stacktop_of(static_bump) + TOTAL_STACK
}

/// Where dynamic memory begins: the first aligned address behind the stack.
pub open spec fn dynamic_base_of(static_bump: int) -> int {
    aligned(stack_max_of(static_bump))
}

/// The four bytes of `value`, least significant first.
pub open spec fn le_bytes(value: u32) -> Seq<u8> {
    seq![
        (value % 0x100) as u8,
        (value / 0x100 % 0x100) as u8,
        (value / 0x1_0000 % 0x100) as u8,
        (value / 0x100_0000) as u8,
    ]
}

/// `memory` with the four bytes from `at` on replaced by those of `value`.
pub open spec fn with_word(memory: Seq<u8>, at: int, value: u32) -> Seq<u8> {
    memory.take(at) + le_bytes(value) + memory.skip(at + 4)
}

/// Rounds `ptr` up to a multiple of 16.
pub fn align_memory(ptr: u32) -> (r: u32)
    requires
        ptr + 15 <= u32::MAX,
    ensures
        r == aligned(ptr as int),
        r % 16 == 0,
        ptr <= r < ptr + 16,
{
    let sum: u32 = ptr + 15;
    proof {
        lemma_align_up(ptr, sum);
    }
    sum & !15
}

/// Where the word that holds the top of dynamic memory lies.
pub fn dynamictop_ptr(static_bump: u32) -> (r: u32)
    requires
        dynamictop_ptr_of(static_bump as int) <= u32::MAX,
    ensures
        r == dynamictop_ptr_of(static_bump as int),
{
    static_bump + DYNAMICTOP_PTR_DIFF
}

/// Where the stack begins.
pub fn stacktop(static_bump: u32) -> (r: u32)
    requires
        dynamictop_ptr_of(static_bump as int) + 4 + 15 <= u32::MAX,
    ensures
        r == stacktop_of(static_bump as int),
{
    align_memory(dynamictop_ptr(static_bump) + 4)
}

/// Where the stack ends.
pub fn stack_max(static_bump: u32) -> (r: u32)
    requires
        stack_max_of(static_bump as int) <= u32::MAX,
    ensures
        r == stack_max_of(static_bump as int),
{
    stacktop(static_bump) + TOTAL_STACK
}

/// Where dynamic memory begins.
pub fn dynamic_base(static_bump: u32) -> (r: u32)
    requires
        stack_max_of(static_bump as int) + 15 <= u32::MAX,
    ensures
        r == dynamic_base_of(static_bump as int),
{
    align_memory(stack_max(static_bump))
}

/// The hooks a module built by Emscripten needs around its instantiation.
pub struct EmscriptenModuleEnvironment {}

impl EmscriptenModuleEnvironment {
    /// The environment, which holds no state of its own.
    pub fn new() -> (e: EmscriptenModuleEnvironment)
        ensures
            e == (EmscriptenModuleEnvironment {}),
    {
        EmscriptenModuleEnvironment {  }
    }
}

/// Calls byteorder's `LittleEndian::write_u32` on the part of `memory` that
/// begins at `at`. That function copies the four little-endian bytes of its
/// number over the first four bytes of the slice it is given and touches
/// nothing else; it panics on a slice shorter than four bytes, which the
/// `requires` rules out.
#[verifier::external_body]
fn write_word(memory: &mut [u8], at: usize, value: u32)
    requires
        at + 4 <= old(memory)@.len(),
    ensures
        final(memory)@ == with_word(old(memory)@, at as int, value),
{
    LittleEndian::write_u32(&mut memory[at..], value);
}

/// Stores the start of dynamic memory in the word the module reads it
/// from. A memory too small to hold that word is left untouched.
pub fn emscripten_set_up_memory(memory: &mut [u8])
    ensures
        final(memory)@ == (if dynamictop_ptr_of(STATIC_BUMP as int) + 4 <= old(memory)@.len() {
            with_word(
                old(memory)@,
                dynamictop_ptr_of(STATIC_BUMP as int),
                dynamic_base_of(STATIC_BUMP as int) as u32,
            )
        } else {
            old(memory)@
        }),
{
    let dynamictop_ptr = dynamictop_ptr(STATIC_BUMP) as usize;
    let dynamictop_ptr_offset = dynamictop_ptr + 4;
    if dynamictop_ptr_offset > memory.len() {
        return ;
    }
    write_word(memory, dynamictop_ptr, dynamic_base(STATIC_BUMP));
}

} // verus!
