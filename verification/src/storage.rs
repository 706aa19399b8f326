//! Payloads: the byte buffers that the stores keep.

use vstd::prelude::*;
use crate::pseudo_rand::{lcg_state, PseudoRand};

verus! {

/// The bytes of a synthetic payload of length `n`: the low bytes of the first
/// `n` states that a fresh generator steps through.
pub open spec fn synthetic_bytes(n: nat) -> Seq<u8> {
    Seq::new(n, |i: int| (lcg_state((i + 1) as nat) % 256) as u8)
}

/// One stored record. Its view is its bytes.
#[derive(Debug, PartialEq, Eq, Hash)]
pub struct Storage {
    data: Vec<u8>,
}

impl View for Storage {
    type V = Seq<u8>;

    closed spec fn view(&self) -> Seq<u8> {
        self.data@
    }
}

impl Clone for Storage {
    fn clone(&self) -> (copy: Self)
        ensures
            copy@ == self@,
    {
        Storage { data: self.data.clone() }
    }
}

impl Storage {
    /// A synthetic payload of `capacity` bytes.
    pub fn new(capacity: usize) -> (storage: Self)
        ensures
            storage@ == synthetic_bytes(capacity as nat),
    {
        let mut data: Vec<u8> = Vec::with_capacity(capacity);
        let mut rng = PseudoRand::new();
        let mut filled: usize = 0;
        while filled < capacity
            invariant
                filled <= capacity,
                rng@ == lcg_state(filled as nat),
                data@ == synthetic_bytes(filled as nat),
            decreases capacity - filled,
        {
            let byte = rng.next_u8();
            data.push(byte);
            filled = filled + 1;
            assert(rng@ == lcg_state(filled as nat)) by {
                reveal_with_fuel(lcg_state, 2);
            }
        }
        Storage { data }
    }

    /// A payload that holds exactly `bytes`.
    pub fn from_vec(bytes: Vec<u8>) -> (storage: Self)
        ensures
            storage@ == bytes@,
    {
        Storage { data: bytes }
    }

    /// Replaces this payload's bytes by a copy of `storage`'s.
    pub fn set(&mut self, storage: &Storage)
        ensures
            final(self)@ == storage@,
    {
        self.data.clear();
        self.data.extend_from_slice(storage.data.as_slice());
    }

    pub fn len(&self) -> (len: usize)
        ensures
            len == self@.len(),
    {
        self.data.len()
    }

    /// The payload's bytes.
    pub fn as_slice(&self) -> (bytes: &[u8])
        ensures
            bytes@ == self@,
    {
        self.data.as_slice()
    }
}

} // verus!
