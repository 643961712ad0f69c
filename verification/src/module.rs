//! The value a decode produces.

use vstd::prelude::*;
use vstd::slice::slice_to_vec;
use crate::wire::{gather, Section, SIGNATURE_SECTION};

verus! {

/// One decoded program, before anything runs it. For now it records the
/// signature blocks of the input, each as the bytes it was given.
#[derive(Debug)]
pub struct Module {
    pub signatures: Vec<Vec<u8>>,
}

impl Module {
    /// The signature blocks as sequences of bytes, in the order they were met.
    pub open spec fn blocks(&self) -> Seq<Seq<u8>> {
        Seq::new(self.signatures@.len(), |i: int| self.signatures@[i]@)
    }

    /// A module with nothing in it.
    pub fn new() -> (m: Self)
        ensures
            m.signatures@.len() == 0,
            m.blocks() == Seq::<Seq<u8>>::empty(),
    {
        Module { signatures: Vec::new() }
    }

    /// Folds one section into the module: the payload of the signature
    /// section is kept as a block of its own, and any other section is
    /// passed over.
    pub fn record(&mut self, id: u8, payload: &[u8])
        ensures
            final(self).blocks() == gather(old(self).blocks(), (Section { id, payload: payload@ })),
    {
        if id == SIGNATURE_SECTION {
            self.signatures.push(slice_to_vec(payload));
        }
    }

    /// Moves the blocks of `other` behind those of this module.
    pub fn absorb(&mut self, other: Module)
        ensures
            final(self).blocks() == old(self).blocks() + other.blocks(),
    {
        let mut rest = other.signatures;
        self.signatures.append(&mut rest);
    }
}

impl Clone for Module {
    /// A copy that holds the same blocks, byte for byte.
    fn clone(&self) -> (copy: Self)
        ensures
            copy.blocks() == self.blocks(),
    {
        let mut signatures: Vec<Vec<u8>> = Vec::new();
        let mut i: usize = 0;
        while i < self.signatures.len()
            invariant
                i <= self.signatures@.len(),
                signatures@.len() == i,
                forall|k: int| 0 <= k < i ==> signatures@[k]@ == self.signatures@[k]@,
            decreases self.signatures@.len() - i,
        {
            signatures.push(slice_to_vec(self.signatures[i].as_slice()));
            i += 1;
        }
        Module { signatures }
    }
}

} // verus!
