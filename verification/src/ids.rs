//! The identifiers that the mesh keys its state by.

use vstd::prelude::*;

verus! {

/// A message is named by a 32-byte hash.
pub type MessageId = [u8; 32];

/// Names a peer.
#[derive(Clone, Copy, Debug, PartialEq, Eq, PartialOrd, Ord, Hash)]
pub struct PeerId {
    pub bytes: [u8; 32],
}

/// Names a topic.
#[derive(Clone, Copy, Debug, PartialEq, Eq, PartialOrd, Ord, Hash)]
pub struct TopicId {
    pub bytes: [u8; 32],
}

/// A small value that is compared for equality.
pub trait Identifier: Copy {
    fn same(&self, other: &Self) -> (r: bool)
        ensures
            r == (*self == *other),
    ;
}

impl Identifier for [u8; 32] {
    fn same(&self, other: &Self) -> (r: bool) {
        let mut i: usize = 0;
        while i < 32
            invariant
                i <= 32,
                forall|j: int| 0 <= j < i ==> self[j] == other[j],
            decreases 32 - i,
        {
            if self[i] != other[i] {
                return false;
            }
            i = i + 1;
        }
        assert(*self =~= *other);
        true
    }
}

impl Identifier for PeerId {
    fn same(&self, other: &Self) -> (r: bool) {
        self.bytes.same(&other.bytes)
    }
}

impl Identifier for TopicId {
    fn same(&self, other: &Self) -> (r: bool) {
        self.bytes.same(&other.bytes)
    }
}

impl PeerId {
    pub fn new(bytes: [u8; 32]) -> (r: Self)
        ensures
            r.bytes == bytes,
    {
        PeerId { bytes }
    }

    pub fn as_bytes(&self) -> (r: &[u8; 32])
        ensures
            *r == self.bytes,
    {
        &self.bytes
    }
}

impl TopicId {
    pub fn new(bytes: [u8; 32]) -> (r: Self)
        ensures
            r.bytes == bytes,
    {
        TopicId { bytes }
    }

    pub fn as_bytes(&self) -> (r: &[u8; 32])
        ensures
            *r == self.bytes,
    {
        &self.bytes
    }

    pub fn to_bytes(&self) -> (r: [u8; 32])
        ensures
            r == self.bytes,
    {
        self.bytes
    }
}

} // verus!
