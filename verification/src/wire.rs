//! Messages as bytes, in the encoding of the `postcard` crate.
//!
//! The crate encodes a struct as the sequence of its fields and an enum as the number of its
//! variant and then that variant's fields. So a message is encoded here as a tuple of plain values:
//! the wrappers below call `postcard` on such tuples, and verified functions turn them into
//! messages and back. What `postcard` makes of given values is named and not described further, but
//! for the facts that encoding into a vector does not fail and that decoding gives back what was
//! encoded.

use vstd::prelude::*;

use crate::ids::{MessageId, TopicId};
use crate::message::{GossipMessage, MessageHeader, MessageKind};

verus! {

/// Why `postcard` could not encode or decode something.
#[verifier::external_type_specification]
#[verifier::external_body]
pub struct ExPostcardError(postcard::Error);

/// The fields of a header in their order: version, topic, message, kind, hop and time to live.
pub type HeaderFields = (u8, [u8; 32], [u8; 32], u32, u8, u8);

/// The encoding of a list of message identifiers.
pub uninterp spec fn ids_wire(ids: Seq<[u8; 32]>) -> Seq<u8>;

/// The list of message identifiers at the start of some bytes, if there is one.
pub uninterp spec fn ids_in(bytes: Seq<u8>) -> Option<Seq<[u8; 32]>>;

/// The encoding of the fields of a header.
pub uninterp spec fn fields_wire(fields: HeaderFields) -> Seq<u8>;

/// The fields of a header at the start of some bytes, if they are there.
pub uninterp spec fn fields_in(bytes: Seq<u8>) -> Option<HeaderFields>;

/// The encoding of a whole message.
pub uninterp spec fn message_wire(
    fields: HeaderFields,
    payload: Option<Seq<u8>>,
    signature: Seq<u8>,
    public_key: Seq<u8>,
) -> Seq<u8>;

/// The whole message at the start of some bytes, if there is one.
pub uninterp spec fn message_in(bytes: Seq<u8>) -> Option<(HeaderFields, Option<Seq<u8>>, Seq<u8>, Seq<u8>)>;

/// The encoding of a variant's number and a list of message identifiers.
pub uninterp spec fn tagged_ids_wire(tag: u32, ids: Seq<[u8; 32]>) -> Seq<u8>;

/// The variant's number and the list of message identifiers at the start of some bytes, if they are
/// there.
pub uninterp spec fn tagged_ids_in(bytes: Seq<u8>) -> Option<(u32, Seq<[u8; 32]>)>;

/// What an optional vector holds.
pub open spec fn bytes_of(bytes: Option<Vec<u8>>) -> Option<Seq<u8>> {
    match bytes {
        Some(b) => Some(b@),
        None => None,
    }
}

/// `postcard::to_stdvec` on a list of identifiers: its encoding, which decodes to the list again. It
/// fails only where a length is not known beforehand, and that of a vector is.
#[verifier::external_body]
pub(crate) fn postcard_encode_ids(ids: &Vec<[u8; 32]>) -> (r: Result<Vec<u8>, postcard::Error>)
    ensures
        r is Ok,
        r->Ok_0@ == ids_wire(ids@),
        ids_in(r->Ok_0@) == Some(ids@),
{
    postcard::to_stdvec(ids)
}

/// `postcard::from_bytes` for a list of identifiers: what the bytes start with, if it is one.
#[verifier::external_body]
pub(crate) fn postcard_decode_ids(bytes: &[u8]) -> (r: Result<Vec<[u8; 32]>, postcard::Error>)
    ensures
        match r {
            Ok(ids) => ids_in(bytes@) == Some(ids@),
            Err(_) => ids_in(bytes@) is None,
        },
{
    postcard::from_bytes(bytes)
}

/// `postcard::to_stdvec` on the fields of a header: their encoding, which decodes to the fields
/// again. There is nothing in them on which it fails.
#[verifier::external_body]
pub(crate) fn postcard_encode_fields(fields: HeaderFields) -> (r: Result<Vec<u8>, postcard::Error>)
    ensures
        r is Ok,
        r->Ok_0@ == fields_wire(fields),
        fields_in(r->Ok_0@) == Some(fields),
{
    postcard::to_stdvec(&fields)
}

/// `postcard::take_from_bytes` for the fields of a header: what the bytes start with, if they are
/// such fields.
#[verifier::external_body]
pub(crate) fn postcard_take_fields(bytes: &[u8]) -> (r: Result<HeaderFields, postcard::Error>)
    ensures
        match r {
            Ok(fields) => fields_in(bytes@) == Some(fields),
            Err(_) => fields_in(bytes@) is None,
        },
{
    postcard::take_from_bytes::<HeaderFields>(bytes).map(|taken| taken.0)
}

/// `postcard::to_stdvec` on a whole message: its encoding, which starts with that of the header and
/// decodes to the message again. There is nothing in it on which it fails.
#[verifier::external_body]
pub(crate) fn postcard_encode_message(
    fields: HeaderFields,
    payload: &Option<Vec<u8>>,
    signature: &Vec<u8>,
    public_key: &Vec<u8>,
) -> (r: Result<Vec<u8>, postcard::Error>)
    ensures
        r is Ok,
        r->Ok_0@ == message_wire(fields, bytes_of(*payload), signature@, public_key@),
        message_in(r->Ok_0@) == Some((fields, bytes_of(*payload), signature@, public_key@)),
        fields_in(r->Ok_0@) == Some(fields),
{
    postcard::to_stdvec(&(fields, payload, signature, public_key))
}

/// `postcard::from_bytes` for a whole message: what the bytes start with, if it is one.
#[verifier::external_body]
pub(crate) fn postcard_decode_message(bytes: &[u8]) -> (r: Result<
    (HeaderFields, Option<Vec<u8>>, Vec<u8>, Vec<u8>),
    postcard::Error,
>)
    ensures
        match r {
            Ok(parts) => message_in(bytes@) == Some((parts.0, bytes_of(parts.1), parts.2@, parts.3@)),
            Err(_) => message_in(bytes@) is None,
        },
{
    postcard::from_bytes(bytes)
}

/// `postcard::to_stdvec` on a variant's number and a list of identifiers: their encoding, which
/// decodes to them again. There is nothing in them on which it fails.
#[verifier::external_body]
pub(crate) fn postcard_encode_tagged_ids(tag: u32, ids: &Vec<[u8; 32]>) -> (r: Result<Vec<u8>, postcard::Error>)
    ensures
        r is Ok,
        r->Ok_0@ == tagged_ids_wire(tag, ids@),
        tagged_ids_in(r->Ok_0@) == Some((tag, ids@)),
{
    postcard::to_stdvec(&(tag, ids))
}

/// `postcard::from_bytes` for a variant's number and a list of identifiers: what the bytes start
/// with, if it is that.
#[verifier::external_body]
pub(crate) fn postcard_decode_tagged_ids(bytes: &[u8]) -> (r: Result<(u32, Vec<[u8; 32]>), postcard::Error>)
    ensures
        match r {
            Ok((tag, ids)) => tagged_ids_in(bytes@) == Some((tag, ids@)),
            Err(_) => tagged_ids_in(bytes@) is None,
        },
{
    postcard::from_bytes(bytes)
}

/// The number of a kind on the wire.
pub open spec fn code_of(kind: MessageKind) -> u32 {
    match kind {
        MessageKind::Eager => 0,
        MessageKind::IHave => 1,
        MessageKind::IWant => 2,
        MessageKind::Ping => 3,
        MessageKind::Ack => 4,
        MessageKind::Find => 5,
        MessageKind::Presence => 6,
        MessageKind::AntiEntropy => 7,
        MessageKind::Shuffle => 8,
    }
}

/// The kind with a number on the wire, if there is one.
pub open spec fn kind_of(code: u32) -> Option<MessageKind> {
    if code == 0 {
        Some(MessageKind::Eager)
    } else if code == 1 {
        Some(MessageKind::IHave)
    } else if code == 2 {
        Some(MessageKind::IWant)
    } else if code == 3 {
        Some(MessageKind::Ping)
    } else if code == 4 {
        Some(MessageKind::Ack)
    } else if code == 5 {
        Some(MessageKind::Find)
    } else if code == 6 {
        Some(MessageKind::Presence)
    } else if code == 7 {
        Some(MessageKind::AntiEntropy)
    } else if code == 8 {
        Some(MessageKind::Shuffle)
    } else {
        None
    }
}

/// Every kind has a number of its own.
pub proof fn kind_codes_are_distinct(kind: MessageKind, code: u32)
    ensures
        kind_of(code_of(kind)) == Some(kind),
        kind_of(code) is Some ==> code_of(kind_of(code)->0) == code,
{
}

/// The number of a kind on the wire.
pub fn kind_code(kind: MessageKind) -> (r: u32)
    ensures
        r == code_of(kind),
{
    match kind {
        MessageKind::Eager => 0,
        MessageKind::IHave => 1,
        MessageKind::IWant => 2,
        MessageKind::Ping => 3,
        MessageKind::Ack => 4,
        MessageKind::Find => 5,
        MessageKind::Presence => 6,
        MessageKind::AntiEntropy => 7,
        MessageKind::Shuffle => 8,
    }
}

/// The kind with a number on the wire, if there is one.
pub fn kind_from_code(code: u32) -> (r: Option<MessageKind>)
    ensures
        r == kind_of(code),
{
    match code {
        0 => Some(MessageKind::Eager),
        1 => Some(MessageKind::IHave),
        2 => Some(MessageKind::IWant),
        3 => Some(MessageKind::Ping),
        4 => Some(MessageKind::Ack),
        5 => Some(MessageKind::Find),
        6 => Some(MessageKind::Presence),
        7 => Some(MessageKind::AntiEntropy),
        8 => Some(MessageKind::Shuffle),
        _ => None,
    }
}

/// The fields of a header.
pub open spec fn fields_of(header: MessageHeader) -> HeaderFields {
    (header.version, header.topic.bytes, header.msg_id, code_of(header.kind), header.hop, header.ttl)
}

/// The header with some fields, if the number of its kind is one.
pub open spec fn header_of(fields: HeaderFields) -> Option<MessageHeader> {
    match kind_of(fields.3) {
        Some(kind) => Some(
            MessageHeader {
                version: fields.0,
                topic: TopicId { bytes: fields.1 },
                msg_id: fields.2,
                kind,
                hop: fields.4,
                ttl: fields.5,
            },
        ),
        None => None,
    }
}

pub fn header_fields(header: &MessageHeader) -> (r: HeaderFields)
    ensures
        r == fields_of(*header),
        header_of(r) == Some(*header),
{
    (header.version, header.topic.bytes, header.msg_id, kind_code(header.kind), header.hop, header.ttl)
}

pub fn header_from_fields(fields: HeaderFields) -> (r: Option<MessageHeader>)
    ensures
        r == header_of(fields),
{
    match kind_from_code(fields.3) {
        Some(kind) => Some(
            MessageHeader {
                version: fields.0,
                topic: TopicId { bytes: fields.1 },
                msg_id: fields.2,
                kind,
                hop: fields.4,
                ttl: fields.5,
            },
        ),
        None => None,
    }
}

/// The bytes of a header, over which it is signed.
pub fn encode_header(header: &MessageHeader) -> (r: Vec<u8>)
    ensures
        r@ == fields_wire(fields_of(*header)),
        fields_in(r@) == Some(fields_of(*header)),
        peeked_kind(r@) == Some(header.kind),
{
    postcard_encode_fields(header_fields(header)).unwrap()
}

/// The kind that some fields of a header tell.
pub fn kind_in_fields(fields: Option<HeaderFields>) -> (r: Option<MessageKind>)
    ensures
        r == match fields {
            Some(f) => kind_of(f.3),
            None => None,
        },
{
    match fields {
        Some(f) => kind_from_code(f.3),
        None => None,
    }
}

/// The kind of the message that some bytes start with, if they start with a header.
pub open spec fn peeked_kind(frame: Seq<u8>) -> Option<MessageKind> {
    match fields_in(frame) {
        Some(f) => kind_of(f.3),
        None => None,
    }
}

/// The kind of a message, read off its header without a look at the rest. `None` where the bytes do
/// not start with a header.
pub fn peek_message_kind(frame: &[u8]) -> (r: Option<MessageKind>)
    ensures
        r == peeked_kind(frame@),
{
    kind_in_fields(postcard_take_fields(frame).ok())
}

/// Two messages hold the same.
pub open spec fn same_message(a: GossipMessage, b: GossipMessage) -> bool {
    &&& a.header == b.header
    &&& bytes_of(a.payload) == bytes_of(b.payload)
    &&& a.signature@ == b.signature@
    &&& a.public_key@ == b.public_key@
}

/// The encoding of a message.
pub open spec fn wire_of(message: GossipMessage) -> Seq<u8> {
    message_wire(fields_of(message.header), bytes_of(message.payload), message.signature@, message.public_key@)
}

/// The bytes of a message. They start with the bytes of its header, and decode to it again.
pub fn encode_message(message: &GossipMessage) -> (r: Vec<u8>)
    ensures
        r@ == wire_of(*message),
        peeked_kind(r@) == Some(message.header.kind),
        decodes_to(r@, *message),
{
    postcard_encode_message(
        header_fields(&message.header),
        &message.payload,
        &message.signature,
        &message.public_key,
    ).unwrap()
}

/// Some bytes start with a message that holds the same as this one.
pub open spec fn decodes_to(bytes: Seq<u8>, message: GossipMessage) -> bool {
    match message_in(bytes) {
        Some(parts) => {
            &&& header_of(parts.0) == Some(message.header)
            &&& parts.1 == bytes_of(message.payload)
            &&& parts.2 == message.signature@
            &&& parts.3 == message.public_key@
        },
        None => false,
    }
}

/// The message with some parts, if the number of its kind is one.
pub fn message_from_parts(parts: Option<(HeaderFields, Option<Vec<u8>>, Vec<u8>, Vec<u8>)>) -> (r: Option<GossipMessage>)
    ensures
        match parts {
            None => r is None,
            Some((fields, payload, signature, public_key)) => match header_of(fields) {
                None => r is None,
                Some(header) => {
                    &&& r is Some
                    &&& r->0.header == header
                    &&& r->0.payload == payload
                    &&& r->0.signature == signature
                    &&& r->0.public_key == public_key
                },
            },
        },
{
    match parts {
        Some((fields, payload, signature, public_key)) => match header_from_fields(fields) {
            Some(header) => Some(GossipMessage { header, payload, signature, public_key }),
            None => None,
        },
        None => None,
    }
}

/// What comes of decoding some bytes: the message that they start with, or `None` where they start
/// with none.
pub open spec fn decoded_as(bytes: Seq<u8>, r: Option<GossipMessage>) -> bool {
    match r {
        Some(message) => decodes_to(bytes, message),
        None => match message_in(bytes) {
            Some(parts) => header_of(parts.0) is None,
            None => true,
        },
    }
}

/// The message that some bytes start with, if there is one.
pub fn decode_message(bytes: &[u8]) -> (r: Option<GossipMessage>)
    ensures
        decoded_as(bytes@, r),
{
    message_from_parts(postcard_decode_message(bytes).ok())
}

/// Bytes that were made of a message decode to nothing else.
pub proof fn decoding_gives_back_what_was_encoded(bytes: Seq<u8>, sent: GossipMessage, received: Option<GossipMessage>)
    requires
        decodes_to(bytes, sent),
        decoded_as(bytes, received),
    ensures
        received is Some,
        same_message(sent, received->0),
{
}

/// What is said in a reconciliation.
#[derive(Clone, Debug)]
pub enum AntiEntropyPayload {
    /// The sender has these messages.
    Digest { msg_ids: Vec<MessageId> },
    /// The receiver lacks these messages.
    Response { missing_ids: Vec<MessageId> },
}

impl AntiEntropyPayload {
    pub open spec fn tag(self) -> u32 {
        match self {
            AntiEntropyPayload::Digest { .. } => 0,
            AntiEntropyPayload::Response { .. } => 1,
        }
    }

    pub open spec fn ids(self) -> Seq<MessageId> {
        match self {
            AntiEntropyPayload::Digest { msg_ids } => msg_ids@,
            AntiEntropyPayload::Response { missing_ids } => missing_ids@,
        }
    }
}

/// The bytes of what is said in a reconciliation; they decode to it again.
pub fn encode_anti_entropy(payload: &AntiEntropyPayload) -> (r: Vec<u8>)
    ensures
        r@ == tagged_ids_wire(payload.tag(), payload.ids()),
        tagged_ids_in(r@) == Some((payload.tag(), payload.ids())),
{
    match payload {
        AntiEntropyPayload::Digest { msg_ids } => postcard_encode_tagged_ids(0, msg_ids).unwrap(),
        AntiEntropyPayload::Response { missing_ids } => postcard_encode_tagged_ids(1, missing_ids).unwrap(),
    }
}

/// What is said by a variant's number and a list of identifiers, if the number is one.
pub fn anti_entropy_from_parts(parts: Option<(u32, Vec<MessageId>)>) -> (r: Option<AntiEntropyPayload>)
    ensures
        match parts {
            None => r is None,
            Some((tag, ids)) => if tag <= 1 {
                r is Some && r->0.tag() == tag && r->0.ids() == ids@
            } else {
                r is None
            },
        },
{
    match parts {
        Some((tag, ids)) => {
            if tag == 0 {
                Some(AntiEntropyPayload::Digest { msg_ids: ids })
            } else if tag == 1 {
                Some(AntiEntropyPayload::Response { missing_ids: ids })
            } else {
                None
            }
        },
        None => None,
    }
}

/// What is said in a reconciliation by some bytes, if they start with that.
pub fn decode_anti_entropy(bytes: &[u8]) -> (r: Option<AntiEntropyPayload>)
    ensures
        match tagged_ids_in(bytes@) {
            None => r is None,
            Some((tag, ids)) => if tag <= 1 {
                r is Some && r->0.tag() == tag && r->0.ids() == ids
            } else {
                r is None
            },
        },
{
    anti_entropy_from_parts(postcard_decode_tagged_ids(bytes).ok())
}

/// The bytes of a list of message identifiers; they decode to it again.
pub fn encode_ids(ids: &Vec<MessageId>) -> (r: Vec<u8>)
    ensures
        r@ == ids_wire(ids@),
        ids_in(r@) == Some(ids@),
{
    postcard_encode_ids(ids).unwrap()
}

/// The list of message identifiers that some bytes start with, if there is one.
pub fn decode_ids(bytes: &[u8]) -> (r: Option<Vec<MessageId>>)
    ensures
        match r {
            Some(ids) => ids_in(bytes@) == Some(ids@),
            None => ids_in(bytes@) is None,
        },
{
    postcard_decode_ids(bytes).ok()
}

/// A header goes on the wire with every field in its place, and headers that differ go differently.
pub proof fn headers_keep_every_field(header: MessageHeader, other: MessageHeader)
    ensures
        fields_of(header).0 == header.version,
        fields_of(header).1 == header.topic.bytes,
        fields_of(header).2 == header.msg_id,
        kind_of(fields_of(header).3) == Some(header.kind),
        fields_of(header).4 == header.hop,
        fields_of(header).5 == header.ttl,
        header_of(fields_of(header)) == Some(header),
        fields_of(header) == fields_of(other) ==> header == other,
{
    kind_codes_are_distinct(header.kind, 0);
    kind_codes_are_distinct(other.kind, 0);
    assert(header_of(fields_of(header)) == Some(header));
    assert(header_of(fields_of(other)) == Some(other));
}

/// A look at the start of a frame tells the kind that its header was made with.
pub proof fn a_look_tells_the_kind(frame: Seq<u8>, header: MessageHeader)
    requires
        fields_in(frame) == Some(fields_of(header)),
    ensures
        peeked_kind(frame) == Some(header.kind),
{
}

} // verus!
