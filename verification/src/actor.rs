//! Actor identities.
//!
//! A participant is identified by an opaque byte string (the serialized form
//! of its credential-backed identifier). The state machine only ever compares
//! identities for equality and stores them; it never interprets the bytes.

use vstd::prelude::*;

verus! {

/// The identity of a participant: an opaque byte string used both to key the
/// per-actor tally and to name the last contributor.
pub struct ActorId {
    bytes: Vec<u8>,
}

impl View for ActorId {
    type V = Seq<u8>;

    closed spec fn view(&self) -> Seq<u8> {
        self.bytes@
    }
}

impl ActorId {
    /// Wraps a byte string as an actor identity.
    pub fn from_bytes(bytes: Vec<u8>) -> (r: ActorId)
        ensures
            r@ == bytes@,
    {
        ActorId { bytes }
    }

    /// The identity's byte string.
    pub fn bytes(&self) -> (r: &Vec<u8>)
        ensures
            r@ == self@,
    {
        &self.bytes
    }

    /// An independent copy of this identity.
    pub fn duplicate(&self) -> (r: ActorId)
        ensures
            r@ == self@,
    {
        let mut copy: Vec<u8> = Vec::new();
        let mut i: usize = 0;
        while i < self.bytes.len()
            invariant
                i <= self.bytes.len(),
                copy@ == self.bytes@.subrange(0, i as int),
            decreases self.bytes.len() - i,
        {
            copy.push(self.bytes[i]);
            i = i + 1;
        }
        proof {
            assert(copy@ =~= self.bytes@);
        }
        ActorId { bytes: copy }
    }

    /// Whether two identities are the same actor.
    pub fn same_as(&self, other: &ActorId) -> (r: bool)
        ensures
            r == (self@ == other@),
    {
        if self.bytes.len() != other.bytes.len() {
            return false;
        }
        let mut i: usize = 0;
        while i < self.bytes.len()
            invariant
                i <= self.bytes.len(),
                self.bytes.len() == other.bytes.len(),
                forall|j: int| 0 <= j < i ==> self.bytes@[j] == other.bytes@[j],
            decreases self.bytes.len() - i,
        {
            if self.bytes[i] != other.bytes[i] {
                return false;
            }
            i = i + 1;
        }
        proof {
            assert(self.bytes@ =~= other.bytes@);
        }
        true
    }
}

} // verus!
