//! A read position over a borrowed byte buffer.

use vstd::prelude::*;
use vstd::slice::slice_subrange;

verus! {

/// A borrowed buffer and a position in it. The position only moves forward
/// and never passes the end of the buffer.
#[derive(Debug)]
pub struct Cursor<'a> {
    buffer: &'a Vec<u8>,
    position: usize,
}

impl<'a> Cursor<'a> {
    /// The whole buffer.
    pub closed spec fn input(&self) -> Seq<u8> {
        self.buffer@
    }

    /// How many bytes have been consumed.
    pub closed spec fn consumed(&self) -> nat {
        self.position as nat
    }

    /// The position lies inside the buffer or at its end.
    #[verifier::type_invariant]
    pub open spec fn in_bounds(&self) -> bool {
        self.consumed() <= self.input().len()
    }

    /// The bytes not yet consumed.
    pub open spec fn rest(&self) -> Seq<u8> {
        self.input().skip(self.consumed() as int)
    }

    /// This cursor is `before` after `n` more bytes were consumed: the same
    /// buffer, the position `n` further on and still inside the buffer.
    pub open spec fn moved_on(&self, before: Self, n: nat) -> bool {
        &&& self.input() == before.input()
        &&& self.consumed() == before.consumed() + n
        &&& self.consumed() <= self.input().len()
    }

    /// A cursor at the first byte of `buffer`.
    pub fn new(buffer: &'a Vec<u8>) -> (c: Self)
        ensures
            c.input() == buffer@,
            c.consumed() == 0,
    {
        Cursor { buffer, position: 0 }
    }

    /// The position, counted in bytes from the start of the buffer.
    pub fn position(&self) -> (at: usize)
        ensures
            at == self.consumed(),
            at <= self.input().len(),
    {
        proof {
            use_type_invariant(self);
        }
        self.position
    }

    /// How many bytes are left to read.
    pub fn remaining(&self) -> (left: usize)
        ensures
            left == self.rest().len(),
            self.consumed() + left == self.input().len(),
    {
        proof {
            use_type_invariant(self);
        }
        self.buffer.len() - self.position
    }

    /// Takes the next byte, if there is one, and steps over it.
    pub fn read_byte(&mut self) -> (byte: Option<u8>)
        ensures
            byte == (if old(self).rest().len() > 0 {
                Some(old(self).rest()[0])
            } else {
                None
            }),
            final(self).moved_on(*old(self), if byte.is_some() { 1 } else { 0 }),
    {
        proof {
            use_type_invariant(&*self);
        }
        let index = self.position;
        if index < self.buffer.len() {
            self.position += 1;
            return Some(self.buffer[index]);
        }
        None
    }

    /// Takes the next `n` bytes if that many remain, and steps over them;
    /// otherwise takes nothing and stays where it is.
    pub fn read_bytes(&mut self, n: usize) -> (bytes: Option<&'a [u8]>)
        ensures
            bytes.is_some() <==> n <= old(self).rest().len(),
            bytes.is_some() ==> bytes.unwrap()@ == old(self).rest().take(n as int),
            final(self).moved_on(*old(self), if bytes.is_some() { n as nat } else { 0 }),
    {
        proof {
            use_type_invariant(&*self);
        }
        let start = self.position;
        if n > self.buffer.len() - start {
            return None;
        }
        let end = start + n;
        self.position = end;
        let buffer: &'a Vec<u8> = self.buffer;
        let taken = slice_subrange(buffer.as_slice(), start, end);
        assert(taken@ =~= old(self).rest().take(n as int));
        Some(taken)
    }
}

impl<'a> Clone for Cursor<'a> {
    /// A second cursor over the same buffer, at the same position.
    fn clone(&self) -> (copy: Self)
        ensures
            copy.moved_on(*self, 0),
    {
        proof {
            use_type_invariant(self);
        }
        Cursor { buffer: self.buffer, position: self.position }
    }
}

} // verus!
