//! The parser: the readers of every field, the preamble, the sections and
//! the module, all on one cursor.

use vstd::prelude::*;
use crate::bits::{
    lemma_byte_parts, lemma_digit_i32, lemma_digit_i64, lemma_digit_u32, lemma_extend_i8,
    lemma_join_u16, lemma_join_u32, lemma_sign_i32, lemma_sign_i64,
};
use crate::cursor::Cursor;
use crate::error::Error;
use crate::module::Module;
use crate::wire::{
    body_at, continues, lemma_payload_sum_bound, lemma_pow128_values, lemma_run_len_is,
    module_at, payload_sum, pow128, preamble_at, section_at, uint16_at, uint32_at, uint8_at,
    varint32_at, varint64_at, varint7_at, varuint1_at, varuint32_at, varuint7_at, MAGIC_NUMBER,
    VERSION_NUMBER,
};

verus! {

/// A single pass over one input buffer. The parser owns the cursor over
/// the bytes and the module it is filling.
#[derive(Debug)]
pub struct Parser<'a> {
    cursor: Cursor<'a>,
    module: Module,
}

impl<'a> Parser<'a> {
    /// The whole input, which no read changes.
    pub closed spec fn input(&self) -> Seq<u8> {
        self.cursor.input()
    }

    /// How many bytes have been consumed.
    pub closed spec fn position(&self) -> nat {
        self.cursor.consumed()
    }

    /// The signature blocks gathered so far.
    pub closed spec fn gathered(&self) -> Seq<Seq<u8>> {
        self.module.blocks()
    }

    /// The bytes not yet consumed.
    pub open spec fn rest(&self) -> Seq<u8> {
        self.input().skip(self.position() as int)
    }

    /// This parser is `before` after `n` more bytes were consumed: the same
    /// input, the same module, the position `n` further on and still inside
    /// the input.
    pub open spec fn moved_on(&self, before: Self, n: nat) -> bool {
        &&& self.input() == before.input()
        &&& self.gathered() == before.gathered()
        &&& self.position() == before.position() + n
        &&& self.position() <= self.input().len()
    }

    /// Starts at the first byte of `code`, with an empty module.
    pub fn new(code: &'a Vec<u8>) -> (p: Self)
        ensures
            p.input() == code@,
            p.position() == 0,
            p.rest() == code@,
            p.gathered() == Seq::<Seq<u8>>::empty(),
    {
        Parser { cursor: Cursor::new(code), module: Module::new() }
    }

    /// The read position, counted in bytes from the start of the input.
    pub fn cursor(&self) -> (at: usize)
        ensures
            at == self.position(),
            at <= self.input().len(),
    {
        self.cursor.position()
    }

    /// Takes the next byte, if there is one, and steps over it.
    pub fn eat_byte(&mut self) -> (byte: Option<u8>)
        ensures
            byte == (if old(self).rest().len() > 0 {
                Some(old(self).rest()[0])
            } else {
                None
            }),
            final(self).moved_on(*old(self), if byte.is_some() { 1 } else { 0 }),
    {
        self.cursor.read_byte()
    }

    /// Takes the next `range` bytes if that many remain, and steps over them;
    /// otherwise takes nothing and stays where it is.
    pub fn eat_bytes(&mut self, range: usize) -> (bytes: Option<&'a [u8]>)
        ensures
            bytes.is_some() <==> range <= old(self).rest().len(),
            bytes.is_some() ==> bytes.unwrap()@ == old(self).rest().take(range as int),
            final(self).moved_on(*old(self), if bytes.is_some() { range as nat } else { 0 }),
    {
        self.cursor.read_bytes(range)
    }

    /// Reads an 8-bit unsigned integer.
    pub fn uint8(&mut self) -> (r: Result<u8, Error>)
        ensures
            r == uint8_at(old(self).rest()).result,
            final(self).moved_on(*old(self), uint8_at(old(self).rest()).consumed),
    {
        if let Some(byte) = self.eat_byte() {
            return Ok(byte);
        }
        Err(Error::BufferEndReached)
    }

    /// Reads a 16-bit unsigned integer, least significant byte first. Both
    /// bytes are taken, or none.
    pub fn uint16(&mut self) -> (r: Result<u16, Error>)
        ensures
            r == uint16_at(old(self).rest()).result,
            final(self).moved_on(*old(self), uint16_at(old(self).rest()).consumed),
    {
        if let Some(bytes) = self.eat_bytes(2) {
            let result = (bytes[0] as u16) | ((bytes[1] as u16) << 8);
            proof {
                lemma_join_u16(bytes[0], bytes[1]);
            }
            return Ok(result);
        }
        Err(Error::BufferEndReached)
    }

    /// Reads a 32-bit unsigned integer, least significant byte first. All
    /// four bytes are taken, or none.
    pub fn uint32(&mut self) -> (r: Result<u32, Error>)
        ensures
            r == uint32_at(old(self).rest()).result,
            final(self).moved_on(*old(self), uint32_at(old(self).rest()).consumed),
    {
        if let Some(bytes) = self.eat_bytes(4) {
            let result = (bytes[0] as u32) | ((bytes[1] as u32) << 8) | ((bytes[2] as u32) << 16)
                | ((bytes[3] as u32) << 24);
            proof {
                lemma_join_u32(bytes[0], bytes[1], bytes[2], bytes[3]);
            }
            return Ok(result);
        }
        Err(Error::BufferEndReached)
    }

    /// Reads a one-bit flag: a byte that is 0 or 1.
    pub fn varuint1(&mut self) -> (r: Result<bool, Error>)
        ensures
            r == varuint1_at(old(self).rest()).result,
            final(self).moved_on(*old(self), varuint1_at(old(self).rest()).consumed),
    {
        if let Some(byte) = self.eat_byte() {
            return match byte {
                1 => Ok(true),
                0 => Ok(false),
                _ => Err(Error::InvalidVaruint1),
            };
        }
        Err(Error::BufferEndReached)
    }

    /// Reads an unsigned 7-bit field: one byte, whose top bit must be clear.
    pub fn varuint7(&mut self) -> (r: Result<u8, Error>)
        ensures
            r == varuint7_at(old(self).rest()).result,
            final(self).moved_on(*old(self), varuint7_at(old(self).rest()).consumed),
    {
        if let Some(byte) = self.eat_byte() {
            proof {
                lemma_byte_parts(byte);
            }
            if byte & 0b1000_0000 != 0 {
                return Err(Error::InvalidVaruint7);
            }
            return Ok(byte);
        }
        Err(Error::BufferEndReached)
    }

    /// Reads a signed 7-bit field: one byte, whose top bit must be clear,
    /// with bit 6 as the sign.
    pub fn varint7(&mut self) -> (r: Result<i8, Error>)
        ensures
            r == varint7_at(old(self).rest()).result,
            final(self).moved_on(*old(self), varint7_at(old(self).rest()).consumed),
    {
        if let Some(byte) = self.eat_byte() {
            let mut result = byte;
            proof {
                lemma_byte_parts(byte);
            }
            if result & 0b1000_0000 != 0 {
                return Err(Error::InvalidVarint7);
            }
            proof {
                lemma_extend_i8(byte);
            }
            if result & 0b0100_0000 == 0b0100_0000 {
                result |= 0b1000_0000;
            }
            return Ok(result as i8);
        }
        Err(Error::BufferEndReached)
    }

    /// Reads an unsigned 32-bit LEB128 field of one to five bytes. The
    /// cursor passes every byte that was looked at, also when the read is
    /// refused.
    pub fn varuint32(&mut self) -> (r: Result<u32, Error>)
        ensures
            r == varuint32_at(old(self).rest()).result,
            final(self).moved_on(*old(self), varuint32_at(old(self).rest()).consumed),
    {
        let ghost rest = self.rest();
        let ghost mut count: nat = 0;
        let mut result: u32 = 0;
        let mut shift: u32 = 0;
        proof {
            use_type_invariant(&self.cursor);
        }
        while shift < 35
            invariant
                shift == 7 * count,
                count <= 5,
                count <= rest.len(),
                rest == old(self).rest(),
                self.moved_on(*old(self), count),
                forall|i: int| 0 <= i < count ==> continues(#[trigger] rest[i]),
                count < 5 ==> result == payload_sum(rest, count),
            decreases 35 - shift,
        {
            let byte = match self.eat_byte() {
                Some(value) => value,
                None => {
                    proof {
                        lemma_run_len_is(rest, 5, count);
                    }
                    return Err(Error::BufferEndReached);
                },
            };
            proof {
                assert(byte == rest[count as int]);
                lemma_pow128_values();
                lemma_byte_parts(byte);
                lemma_payload_sum_bound(rest, count);
                lemma_digit_u32(result, byte, shift, pow128(count) as u64);
            }
            // Clear the top bit and move the payload to its place.
            let value = ((byte & 0x7f) as u32) << shift;
            result |= value;
            if byte & 0b1000_0000 == 0 {
                proof {
                    lemma_run_len_is(rest, 5, count);
                }
                return Ok(result);
            }
            shift += 7;
            proof {
                count = count + 1;
            }
        }
        proof {
            lemma_run_len_is(rest, 5, 5);
        }
        Err(Error::InvalidVaruint32)
    }

    /// Reads a signed 32-bit LEB128 field of one to five bytes. A field
    /// shorter than five bytes is sign-extended from bit 6 of its last byte.
    pub fn varint32(&mut self) -> (r: Result<i32, Error>)
        ensures
            r == varint32_at(old(self).rest()).result,
            final(self).moved_on(*old(self), varint32_at(old(self).rest()).consumed),
    {
        let ghost rest = self.rest();
        let ghost mut count: nat = 0;
        let mut result: i32 = 0;
        let mut shift: u32 = 0;
        proof {
            use_type_invariant(&self.cursor);
        }
        while shift < 35
            invariant
                shift == 7 * count,
                count <= 5,
                count <= rest.len(),
                rest == old(self).rest(),
                self.moved_on(*old(self), count),
                forall|i: int| 0 <= i < count ==> continues(#[trigger] rest[i]),
                count < 5 ==> result == payload_sum(rest, count),
            decreases 35 - shift,
        {
            let byte = match self.eat_byte() {
                Some(value) => value,
                None => {
                    proof {
                        lemma_run_len_is(rest, 5, count);
                    }
                    return Err(Error::BufferEndReached);
                },
            };
            proof {
                assert(byte == rest[count as int]);
                lemma_pow128_values();
                lemma_byte_parts(byte);
                lemma_payload_sum_bound(rest, count);
                lemma_digit_i32(result, byte, shift, pow128(count) as u64);
            }
            let value = ((byte & 0x7f) as i32) << shift;
            result |= value;
            if byte & 0b1000_0000 == 0 {
                // The fifth byte fills the 32 bits, so only a shorter field
                // has its sign extended.
                if shift < 28 && byte & 0b0100_0000 != 0 {
                    proof {
                        lemma_sign_i32(result, shift, pow128(count) as u64);
                    }
                    result |= (-1i32) << (7 + shift);
                }
                proof {
                    lemma_run_len_is(rest, 5, count);
                }
                return Ok(result);
            }
            shift += 7;
            proof {
                count = count + 1;
            }
        }
        proof {
            lemma_run_len_is(rest, 5, 5);
        }
        Err(Error::InvalidVarint32)
    }

    /// Reads a signed 64-bit LEB128 field of one to nine bytes. A field
    /// shorter than nine bytes is sign-extended from bit 6 of its last byte.
    pub fn varint64(&mut self) -> (r: Result<i64, Error>)
        ensures
            r == varint64_at(old(self).rest()).result,
            final(self).moved_on(*old(self), varint64_at(old(self).rest()).consumed),
    {
        let ghost rest = self.rest();
        let ghost mut count: nat = 0;
        let mut result: i64 = 0;
        let mut shift: u32 = 0;
        proof {
            use_type_invariant(&self.cursor);
        }
        while shift < 63
            invariant
                shift == 7 * count,
                count <= 9,
                count <= rest.len(),
                rest == old(self).rest(),
                self.moved_on(*old(self), count),
                forall|i: int| 0 <= i < count ==> continues(#[trigger] rest[i]),
                result == payload_sum(rest, count),
            decreases 63 - shift,
        {
            let byte = match self.eat_byte() {
                Some(value) => value,
                None => {
                    proof {
                        lemma_run_len_is(rest, 9, count);
                    }
                    return Err(Error::BufferEndReached);
                },
            };
            proof {
                assert(byte == rest[count as int]);
                lemma_pow128_values();
                lemma_byte_parts(byte);
                lemma_payload_sum_bound(rest, count);
                lemma_digit_i64(result, byte, shift, pow128(count) as u64);
            }
            let value = ((byte & 0x7f) as i64) << shift;
            result |= value;
            if byte & 0b1000_0000 == 0 {
                // Only a field shorter than nine bytes has its sign extended.
                if shift < 56 && byte & 0b0100_0000 != 0 {
                    proof {
                        lemma_sign_i64(result, shift, pow128(count) as u64);
                    }
                    result |= (-1i64) << (7 + shift);
                }
                proof {
                    lemma_run_len_is(rest, 9, count);
                }
                return Ok(result);
            }
            shift += 7;
            proof {
                count = count + 1;
            }
        }
        proof {
            lemma_run_len_is(rest, 9, 9);
        }
        Err(Error::InvalidVarint64)
    }

    /// Ends the parse and hands over the module as far as it was built.
    pub fn into_module(self) -> (m: Module)
        ensures
            m.blocks() == self.gathered(),
    {
        self.module
    }

    /// After `n` bytes were consumed, what remains is what remained before
    /// without its first `n` bytes.
    pub proof fn lemma_rest_after(&self, before: Self, n: nat)
        requires
            self.moved_on(before, n),
        ensures
            self.rest() == before.rest().skip(n as int),
            n <= before.rest().len(),
    {
        assert(self.rest() =~= before.rest().skip(n as int));
    }

    /// Reads the preamble: the magic number, then the version. On success
    /// the cursor stands at the first byte of the body.
    pub fn module_preamble(&mut self) -> (r: Result<(), Error>)
        ensures
            r == preamble_at(old(self).rest()).result,
            final(self).moved_on(*old(self), preamble_at(old(self).rest()).consumed),
    {
        let magic_no = match self.uint32() {
            Ok(value) => value,
            Err(error) => {
                return Err(error);
            },
        };
        // The magic number must be `\0asm`.
        if magic_no != MAGIC_NUMBER {
            return Err(Error::InvalidMagicNumber);
        }
        proof {
            self.lemma_rest_after(*old(self), 4);
        }
        let version_no = match self.uint32() {
            Ok(value) => value,
            Err(error) => {
                return Err(error);
            },
        };
        if version_no != VERSION_NUMBER {
            return Err(Error::InvalidVersionNumber);
        }
        Ok(())
    }

    /// Reads one section and hands out its id and its payload. The payload
    /// is taken whole or not at all.
    pub fn section(&mut self) -> (r: Result<(u8, &'a [u8]), Error>)
        ensures
            match section_at(old(self).rest()).result {
                Ok(section) => r.is_ok() && r.unwrap().0 == section.id && r.unwrap().1@
                    == section.payload,
                Err(error) => r.is_err() && r.unwrap_err() == error,
            },
            final(self).moved_on(*old(self), section_at(old(self).rest()).consumed),
    {
        let id = match self.varuint7() {
            Ok(value) => value,
            Err(error) => {
                return Err(error);
            },
        };
        let ghost after_id = *self;
        proof {
            self.lemma_rest_after(*old(self), 1);
        }
        let length = match self.varuint32() {
            Ok(value) => value,
            Err(error) => {
                return Err(error);
            },
        };
        proof {
            self.lemma_rest_after(after_id, varuint32_at(after_id.rest()).consumed);
            self.lemma_rest_after(*old(self), 1 + varuint32_at(after_id.rest()).consumed);
        }
        match self.eat_bytes(length as usize) {
            Some(payload) => {
                proof {
                    let start = 1 + varuint32_at(after_id.rest()).consumed;
                    assert(payload@ =~= old(self).rest().subrange(start as int, start + length));
                }
                Ok((id, payload))
            },
            None => Err(Error::BufferEndReached),
        }
    }

    /// Walks the body section by section until the input ends, and adds the
    /// signature blocks it finds to the module. If any section is refused,
    /// the module is left as it was.
    pub fn module_body(&mut self) -> (r: Result<(), Error>)
        ensures
            match body_at(old(self).rest(), Seq::empty()).result {
                Ok(found) => r.is_ok() && final(self).gathered() == old(self).gathered() + found,
                Err(error) => r.is_err() && r.unwrap_err() == error && final(self).gathered()
                    == old(self).gathered(),
            },
            final(self).input() == old(self).input(),
            final(self).position() == old(self).position() + body_at(
                old(self).rest(),
                Seq::empty(),
            ).consumed,
            final(self).position() <= final(self).input().len(),
    {
        let ghost whole = body_at(self.rest(), Seq::empty());
        let mut found = Module::new();
        proof {
            use_type_invariant(&self.cursor);
        }
        while self.cursor.remaining() > 0
            invariant
                self.moved_on(*old(self), (self.position() - old(self).position()) as nat),
                self.position() >= old(self).position(),
                whole == body_at(old(self).rest(), Seq::empty()),
                whole.result == body_at(self.rest(), found.blocks()).result,
                whole.consumed == self.position() - old(self).position() + body_at(
                    self.rest(),
                    found.blocks(),
                ).consumed,
            decreases self.input().len() - self.position(),
        {
            let ghost before = *self;
            match self.section() {
                Ok((id, payload)) => {
                    proof {
                        self.lemma_rest_after(before, section_at(before.rest()).consumed);
                    }
                    found.record(id, payload);
                },
                Err(error) => {
                    return Err(error);
                },
            }
        }
        assert(self.rest().len() == 0);
        self.module.absorb(found);
        Ok(())
    }

    /// Decodes a whole module: the preamble, then the body. The outcome is
    /// the finished module or the first refusal, never a module in part.
    pub fn module(&mut self) -> (r: Result<Module, Error>)
        ensures
            match module_at(old(self).rest()).result {
                Ok(found) => r.is_ok() && r.unwrap().blocks() == old(self).gathered() + found
                    && final(self).gathered() == Seq::<Seq<u8>>::empty(),
                Err(error) => r.is_err() && r.unwrap_err() == error && final(self).gathered()
                    == old(self).gathered(),
            },
            final(self).input() == old(self).input(),
            final(self).position() == old(self).position() + module_at(old(self).rest()).consumed,
            final(self).position() <= final(self).input().len(),
    {
        match self.module_preamble() {
            Ok(()) => {},
            Err(error) => {
                return Err(error);
            },
        }
        proof {
            self.lemma_rest_after(*old(self), 8);
        }
        match self.module_body() {
            Ok(()) => {},
            Err(error) => {
                return Err(error);
            },
        }
        let mut module = Module::new();
        std::mem::swap(&mut self.module, &mut module);
        Ok(module)
    }
}

impl<'a> Clone for Parser<'a> {
    /// A second parser over the same input, at the same position, with a
    /// copy of the module.
    fn clone(&self) -> (copy: Self)
        ensures
            copy.moved_on(*self, 0),
    {
        Parser { cursor: self.cursor.clone(), module: self.module.clone() }
    }
}

/// Decodes the module that `code` holds, from its first byte to its last.
pub fn decode(code: &Vec<u8>) -> (r: Result<Module, Error>)
    ensures
        match module_at(code@).result {
            Ok(found) => r.is_ok() && r.unwrap().blocks() == found,
            Err(error) => r.is_err() && r.unwrap_err() == error,
        },
{
    let mut parser = Parser::new(code);
    parser.module()
}

} // verus!
