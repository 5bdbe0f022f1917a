//! Messages as the mesh sees them.

use vstd::prelude::*;

use crate::ids::{MessageId, TopicId};

verus! {

/// What a message on the wire is for.
#[derive(Clone, Copy, Debug, PartialEq, Eq, Hash, Structural)]
pub enum MessageKind {
    /// A full message along the tree.
    Eager,
    /// An announcement of message identifiers.
    IHave,
    /// A request for announced messages.
    IWant,
    Ping,
    Ack,
    Find,
    Presence,
    /// A reconciliation of two caches.
    AntiEntropy,
    Shuffle,
}

/// The signed part of a message.
#[derive(Clone, Copy, Debug, PartialEq, Eq)]
pub struct MessageHeader {
    pub version: u8,
    pub topic: TopicId,
    pub msg_id: MessageId,
    pub kind: MessageKind,
    pub hop: u8,
    pub ttl: u8,
}

/// A message with its signature.
#[derive(Clone, Debug)]
pub struct GossipMessage {
    pub header: MessageHeader,
    /// Absent in messages that announce nothing.
    pub payload: Option<Vec<u8>>,
    /// Over the encoded header.
    pub signature: Vec<u8>,
    pub public_key: Vec<u8>,
}

} // verus!
