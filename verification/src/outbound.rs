//! What a node sends of its own accord: announcements, requests and the lists of what it has.

use vstd::prelude::*;

use crate::collections::IdMap;
use crate::config::MAX_IHAVE_BATCH_SIZE;
use crate::digest::digest_of;
use crate::hashing::{low_bytes, msg_id_for_payload, msg_id_input, partner_hash};
use crate::ids::{MessageId, PeerId, TopicId};
use crate::message::{GossipMessage, MessageHeader, MessageKind};
use crate::time::Instant;
use crate::topic::TopicState;
use crate::topics::topics_wf;
use crate::wire::{
    decodes_to, encode_anti_entropy, encode_ids, encode_message, ids_in, ids_wire, tagged_ids_in, tagged_ids_wire,
    wire_of, AntiEntropyPayload,
};

verus! {

/// The version of the messages.
pub const MESSAGE_VERSION: u8 = 1;

/// How often a message may be passed on.
pub const MESSAGE_TTL: u8 = 10;

/// A list of what a node has goes to one peer only.
pub const ANTI_ENTROPY_TTL: u8 = 1;

/// The header of a message of this node.
pub open spec fn own_header(topic: TopicId, msg_id: MessageId, kind: MessageKind, ttl: u8) -> MessageHeader {
    MessageHeader { version: MESSAGE_VERSION, topic, msg_id, kind, hop: 0, ttl }
}

/// The header of a message that this node publishes at some time.
pub fn publish_header(topic: TopicId, epoch: u64, signer: &PeerId, payload: &[u8]) -> (r: MessageHeader)
    ensures
        r == own_header(
            topic,
            digest_of(msg_id_input(topic, epoch, *signer, crate::digest::blake3_digest(payload@))),
            MessageKind::Eager,
            MESSAGE_TTL,
        ),
{
    let msg_id = msg_id_for_payload(&topic, epoch, signer, payload);
    MessageHeader { version: MESSAGE_VERSION, topic, msg_id, kind: MessageKind::Eager, hop: 0, ttl: MESSAGE_TTL }
}

/// The header and the payload of a message about some other messages, named after the first of
/// them. There is none about no message.
pub open spec fn list_message_of(
    r: Option<(MessageHeader, Vec<u8>)>,
    topic: TopicId,
    kind: MessageKind,
    ids: Seq<MessageId>,
) -> bool {
    match r {
        Some((header, payload)) => {
            &&& ids.len() > 0
            &&& header == own_header(topic, ids[0], kind, MESSAGE_TTL)
            &&& payload@ == ids_wire(ids)
            &&& ids_in(payload@) == Some(ids)
        },
        None => ids.len() == 0,
    }
}

fn list_message(topic: TopicId, kind: MessageKind, ids: &Vec<MessageId>) -> (r: Option<(MessageHeader, Vec<u8>)>)
    ensures
        list_message_of(r, topic, kind, ids@),
{
    if ids.len() == 0 {
        return None;
    }
    let header = MessageHeader { version: MESSAGE_VERSION, topic, msg_id: ids[0], kind, hop: 0, ttl: MESSAGE_TTL };
    Some((header, encode_ids(ids)))
}

/// The announcement of some messages. There is none of no message.
pub fn announcement(topic: TopicId, ids: &Vec<MessageId>) -> (r: Option<(MessageHeader, Vec<u8>)>)
    ensures
        list_message_of(r, topic, MessageKind::IHave, ids@),
{
    list_message(topic, MessageKind::IHave, ids)
}

/// The request for some messages. There is none for no message.
pub fn request(topic: TopicId, ids: &Vec<MessageId>) -> (r: Option<(MessageHeader, Vec<u8>)>)
    ensures
        list_message_of(r, topic, MessageKind::IWant, ids@),
{
    list_message(topic, MessageKind::IWant, ids)
}

/// The list of what a node has, as a message. There is none where it has nothing.
pub fn digest_message(topic: TopicId, ids: Vec<MessageId>) -> (r: Option<(MessageHeader, Vec<u8>)>)
    ensures
        match r {
            Some((header, payload)) => {
                &&& ids@.len() > 0
                &&& header.version == MESSAGE_VERSION
                &&& header.topic == topic
                &&& header.msg_id@ == Seq::new(32, |i: int| 0u8)
                &&& header.kind == MessageKind::AntiEntropy
                &&& header.hop == 0
                &&& header.ttl == ANTI_ENTROPY_TTL
                &&& payload@ == tagged_ids_wire(0, ids@)
                &&& tagged_ids_in(payload@) == Some((0u32, ids@))
            },
            None => ids@.len() == 0,
        },
{
    if ids.len() == 0 {
        return None;
    }
    let msg_id: MessageId = [0u8; 32];
    assert(msg_id@ =~= Seq::new(32, |i: int| 0u8));
    let header = MessageHeader {
        version: MESSAGE_VERSION,
        topic,
        msg_id,
        kind: MessageKind::AntiEntropy,
        hop: 0,
        ttl: ANTI_ENTROPY_TTL,
    };
    Some((header, encode_anti_entropy(&AntiEntropyPayload::Digest { msg_ids: ids })))
}

/// The bytes of a message that was signed.
pub fn frame(header: MessageHeader, payload: Vec<u8>, signature: Vec<u8>, public_key: Vec<u8>) -> (r: Vec<u8>)
    ensures
        ({
            let message = GossipMessage { header, payload: Some(payload), signature, public_key };
            r@ == wire_of(message) && decodes_to(r@, message)
        }),
{
    encode_message(&GossipMessage { header, payload: Some(payload), signature, public_key })
}

/// The first entries of a list, as many as one announcement names.
pub open spec fn first_batch(pending: Seq<MessageId>) -> Seq<MessageId> {
    if pending.len() <= MAX_IHAVE_BATCH_SIZE { pending } else { pending.take(MAX_IHAVE_BATCH_SIZE as int) }
}

/// What an announcement leaves for the next.
pub open spec fn after_batch(pending: Seq<MessageId>) -> Seq<MessageId> {
    if pending.len() <= MAX_IHAVE_BATCH_SIZE { Seq::empty() } else { pending.skip(MAX_IHAVE_BATCH_SIZE as int) }
}

/// Announcing in batches loses no message and keeps their order.
pub proof fn batches_cover_all(pending: Seq<MessageId>)
    ensures
        first_batch(pending) + after_batch(pending) == pending,
        first_batch(pending).len() <= MAX_IHAVE_BATCH_SIZE,
        pending.len() > 0 ==> first_batch(pending).len() > 0,
{
    assert(first_batch(pending) + after_batch(pending) =~= pending);
}

/// An announcement that is due.
pub struct IHaveWork {
    pub topic: TopicId,
    pub batch: Vec<MessageId>,
    pub lazy_peers: Vec<PeerId>,
}

/// What is due on one topic.
pub open spec fn work_of(work: IHaveWork, topic: TopicId, state: TopicState) -> bool {
    &&& work.topic == topic
    &&& work.batch@ == first_batch(state.pending_ihave@)
    &&& work.lazy_peers@ == state.lazy_peers.listed()
    &&& work.lazy_peers@.no_duplicates()
    &&& work.lazy_peers@.to_set() == state.lazy_peers@
}

impl TopicState {
    /// Nothing has changed but that the first batch is no longer pending.
    pub open spec fn batch_taken_from(&self, before: &Self) -> bool {
        &&& self.pending_ihave@ == after_batch(before.pending_ihave@)
        &&& *self == (TopicState { pending_ihave: self.pending_ihave, ..*before })
    }

    /// Takes the messages that the next announcement names, in their order.
    pub fn take_ihave_batch(&mut self) -> (r: Vec<MessageId>)
        ensures
            r@ == first_batch(old(self).pending_ihave@),
            final(self).batch_taken_from(old(self)),
    {
        let n: usize = if self.pending_ihave.len() <= MAX_IHAVE_BATCH_SIZE {
            self.pending_ihave.len()
        } else {
            MAX_IHAVE_BATCH_SIZE
        };
        let mut batch: Vec<MessageId> = Vec::new();
        let mut i: usize = 0;
        while i < n
            invariant
                i <= n <= self.pending_ihave@.len(),
                batch@ == self.pending_ihave@.take(i as int),
            decreases n - i,
        {
            batch.push(self.pending_ihave[i]);
            assert(batch@ =~= self.pending_ihave@.take(i + 1));
            i = i + 1;
        }
        let ghost all = self.pending_ihave@;
        let mut rest: Vec<MessageId> = Vec::new();
        while i < self.pending_ihave.len()
            invariant
                n <= i <= self.pending_ihave@.len(),
                rest@ == self.pending_ihave@.subrange(n as int, i as int),
            decreases self.pending_ihave@.len() - i,
        {
            rest.push(self.pending_ihave[i]);
            assert(rest@ =~= self.pending_ihave@.subrange(n as int, i + 1));
            i = i + 1;
        }
        self.pending_ihave = rest;
        assert(batch@ =~= first_batch(all));
        assert(self.pending_ihave@ =~= after_batch(all));
        batch
    }
}

/// Whether a topic has something to announce.
pub open spec fn has_pending(topics: Map<TopicId, TopicState>) -> spec_fn(TopicId) -> bool {
    |t: TopicId| topics[t].pending_ihave@.len() > 0
}

/// Takes what is due for announcement from every topic. An announcement on a topic without lazy
/// peers is taken too; it goes to nobody.
pub fn collect_ihave_work(topics: &mut IdMap<TopicId, TopicState>) -> (r: Vec<IHaveWork>)
    requires
        topics_wf(*old(topics)),
    ensures
        topics_wf(*final(topics)),
        final(topics)@.dom() == old(topics)@.dom(),
        forall|t: TopicId| #[trigger]
            old(topics)@.dom().contains(t) ==> final(topics)@[t].batch_taken_from(&old(topics)@[t]),
        ({
            let due = old(topics).listed().filter(has_pending(old(topics)@));
            &&& r@.len() == due.len()
            &&& forall|i: int| 0 <= i < r@.len() ==> work_of(#[trigger] r@[i], due[i], old(topics)@[due[i]])
        }),
{
    let keys: Vec<TopicId> = topics.keys();
    let ghost all = topics@;
    let mut r: Vec<IHaveWork> = Vec::new();
    let mut i: usize = 0;
    proof {
        reveal(Seq::filter);
        assert(keys@.take(0) =~= Seq::empty());
    }
    while i < keys.len()
        invariant
            i <= keys@.len(),
            keys@.no_duplicates(),
            keys@.to_set() == all.dom(),
            all == old(topics)@,
            forall|t: TopicId| #[trigger] all.dom().contains(t) ==> all[t].wf(),
            topics_wf(*topics),
            topics@.dom() == all.dom(),
            forall|j: int| i <= j < keys@.len() ==> topics@[#[trigger] keys@[j]] == all[keys@[j]],
            forall|j: int| 0 <= j < i ==> topics@[#[trigger] keys@[j]].batch_taken_from(&all[keys@[j]]),
            ({
                let due = keys@.take(i as int).filter(has_pending(all));
                &&& r@.len() == due.len()
                &&& forall|j: int| 0 <= j < r@.len() ==> work_of(#[trigger] r@[j], due[j], all[due[j]])
            }),
        decreases keys@.len() - i,
    {
        let key = keys[i];
        let ghost done = keys@.take(i as int).filter(has_pending(all));
        proof {
            reveal(Seq::filter);
            assert(keys@.to_set().contains(key));
            assert(keys@.take(i + 1).drop_last() =~= keys@.take(i as int));
            assert(keys@.take(i + 1).last() == key);
        }
        if let Some(state) = topics.get_mut(&key) {
            let due = state.pending_ihave.len() > 0;
            let lazy_peers = state.lazy_peers.to_vec();
            let batch = state.take_ihave_batch();
            if due {
                let work = IHaveWork { topic: key, batch, lazy_peers };
                assert(work_of(work, key, all[key]));
                r.push(work);
            }
        }
        proof {
            assert(topics@.dom() =~= all.dom());
            let next = keys@.take(i + 1).filter(has_pending(all));
            assert forall|j: int| 0 <= j < r@.len() implies work_of(#[trigger] r@[j], next[j], all[next[j]]) by {
                if j < done.len() {
                    assert(next[j] == done[j]);
                }
            }
        }
        i = i + 1;
    }
    proof {
        assert(keys@.take(keys@.len() as int) =~= keys@);
        assert forall|t: TopicId| #[trigger] all.dom().contains(t) implies keys@.contains(t) && keys@[keys@.index_of(t)]
            == t by {
            assert(keys@.to_set().contains(t));
        }
    }
    r
}

impl TopicState {
    /// All peers of the topic, the eager ones first.
    pub open spec fn all_peers(&self) -> Seq<PeerId> {
        self.eager_peers.listed() + self.lazy_peers.listed()
    }

    fn list_peers(&self) -> (r: Vec<PeerId>)
        requires
            self.wf(),
        ensures
            r@ == self.all_peers(),
    {
        let mut r = self.eager_peers.to_vec();
        let lazy = self.lazy_peers.to_vec();
        let mut i: usize = 0;
        assert(r@ =~= self.eager_peers.listed() + lazy@.take(0));
        while i < lazy.len()
            invariant
                i <= lazy@.len(),
                lazy@ == self.lazy_peers.listed(),
                r@ == self.eager_peers.listed() + lazy@.take(i as int),
            decreases lazy@.len() - i,
        {
            r.push(lazy[i]);
            assert(r@ =~= self.eager_peers.listed() + lazy@.take(i + 1));
            i = i + 1;
        }
        assert(lazy@.take(lazy@.len() as int) =~= lazy@);
        r
    }

    /// The partner in a reconciliation that a byte of chance picks, if there is anything to
    /// reconcile and anybody to do it with.
    pub fn partner_for(&self, chance: u8) -> (r: Option<PeerId>)
        requires
            self.wf(),
        ensures
            match r {
                Some(peer) => {
                    &&& self.message_cache.order().len() > 0
                    &&& self.all_peers().len() > 0
                    &&& peer == self.all_peers()[chance as int % self.all_peers().len() as int]
                },
                None => self.message_cache.order().len() == 0 || self.all_peers().len() == 0,
            },
    {
        if self.message_cache.len() == 0 {
            return None;
        }
        let peers = self.list_peers();
        if peers.len() == 0 {
            return None;
        }
        let index: usize = (chance as usize) % peers.len();
        Some(peers[index])
    }

    /// The partner in a reconciliation of a topic at some second.
    pub fn partner_at(&self, topic: &TopicId, unix_secs: u64) -> (r: Option<PeerId>)
        requires
            self.wf(),
        ensures
            match r {
                Some(peer) => {
                    &&& self.message_cache.order().len() > 0
                    &&& self.all_peers().len() > 0
                    &&& peer == chosen_partner(*topic, *self, unix_secs)
                },
                None => self.message_cache.order().len() == 0 || self.all_peers().len() == 0,
            },
    {
        let hash = partner_hash(topic, unix_secs);
        self.partner_for(hash[0])
    }

    /// Any peer of the topic, an eager one where there is one.
    pub fn any_peer(&self) -> (r: Option<PeerId>)
        requires
            self.wf(),
        ensures
            r == if self.all_peers().len() > 0 { Some(self.all_peers()[0]) } else { None },
    {
        let peers = self.list_peers();
        if peers.len() == 0 {
            None
        } else {
            Some(peers[0])
        }
    }
}

/// A list of what this node has, for one peer of a topic.
pub struct DigestWork {
    pub topic: TopicId,
    pub peer: PeerId,
    pub ids: Vec<MessageId>,
}

/// The peer that a topic is reconciled with at some second.
pub open spec fn chosen_partner(topic: TopicId, state: TopicState, unix_secs: u64) -> PeerId {
    state.all_peers()[digest_of(topic.bytes@ + low_bytes(unix_secs as nat, 8))[0] as int
        % state.all_peers().len() as int]
}

/// Whether a topic has something to reconcile and somebody to do it with.
pub open spec fn can_reconcile(topics: Map<TopicId, TopicState>) -> spec_fn(TopicId) -> bool {
    |t: TopicId| topics[t].message_cache.order().len() > 0 && topics[t].all_peers().len() > 0
}

/// The list that one topic sends out at some second.
pub open spec fn digest_work_of(work: DigestWork, topic: TopicId, state: TopicState, unix_secs: u64) -> bool {
    &&& work.topic == topic
    &&& work.peer == chosen_partner(topic, state, unix_secs)
    &&& work.ids@ == state.message_cache.order().map_values(|e: (MessageId, Instant)| e.0)
}

/// The lists that go out in one round of reconciliation: one from every topic that has messages
/// and peers.
pub fn collect_digest_work(topics: &IdMap<TopicId, TopicState>, unix_secs: u64) -> (r: Vec<DigestWork>)
    requires
        topics_wf(*topics),
    ensures
        ({
            let due = topics.listed().filter(can_reconcile(topics@));
            &&& r@.len() == due.len()
            &&& forall|i: int|
                0 <= i < r@.len() ==> digest_work_of(#[trigger] r@[i], due[i], topics@[due[i]], unix_secs)
        }),
{
    let keys: Vec<TopicId> = topics.keys();
    let mut r: Vec<DigestWork> = Vec::new();
    let mut i: usize = 0;
    proof {
        reveal(Seq::filter);
        assert(keys@.take(0) =~= Seq::empty());
    }
    while i < keys.len()
        invariant
            i <= keys@.len(),
            topics_wf(*topics),
            keys@.to_set() == topics@.dom(),
            ({
                let due = keys@.take(i as int).filter(can_reconcile(topics@));
                &&& r@.len() == due.len()
                &&& forall|j: int|
                    0 <= j < r@.len() ==> digest_work_of(#[trigger] r@[j], due[j], topics@[due[j]], unix_secs)
            }),
        decreases keys@.len() - i,
    {
        let key = keys[i];
        let ghost done = keys@.take(i as int).filter(can_reconcile(topics@));
        proof {
            reveal(Seq::filter);
            assert(keys@.to_set().contains(key));
            assert(keys@.take(i + 1).drop_last() =~= keys@.take(i as int));
            assert(keys@.take(i + 1).last() == key);
        }
        if let Some(state) = topics.get(&key) {
            if let Some(peer) = state.partner_at(&key, unix_secs) {
                r.push(DigestWork { topic: key, peer, ids: state.cached_message_ids() });
            }
        }
        proof {
            let next = keys@.take(i + 1).filter(can_reconcile(topics@));
            assert forall|j: int| 0 <= j < r@.len() implies digest_work_of(
                #[trigger] r@[j],
                next[j],
                topics@[next[j]],
                unix_secs,
            ) by {
                if j < done.len() {
                    assert(next[j] == done[j]);
                }
            }
        }
        i = i + 1;
    }
    assert(keys@.take(keys@.len() as int) =~= keys@);
    r
}

/// An announcement goes to all lazy peers of its topic and to nobody else, and names the messages
/// that are pending there, from the first on.
pub proof fn announcements_go_to_every_lazy_peer(work: IHaveWork, topic: TopicId, state: TopicState, peer: PeerId)
    requires
        state.wf(),
        work_of(work, topic, state),
    ensures
        work.topic == topic,
        work.lazy_peers@.contains(peer) <==> state.lazy_peers@.contains(peer),
        forall|i: int, j: int|
            0 <= i < j < work.lazy_peers@.len() ==> #[trigger] work.lazy_peers@[i] != #[trigger] work.lazy_peers@[j],
        work.batch@.len() == (if state.pending_ihave@.len() <= MAX_IHAVE_BATCH_SIZE {
            state.pending_ihave@.len() as int
        } else {
            MAX_IHAVE_BATCH_SIZE as int
        }),
        forall|i: int| 0 <= i < work.batch@.len() ==> #[trigger] work.batch@[i] == state.pending_ihave@[i],
{
    assert(work.lazy_peers@.contains(peer) == work.lazy_peers@.to_set().contains(peer));
}

/// What was announced is no longer pending, and the rest is, in its order.
pub proof fn announced_messages_are_no_longer_pending(before: TopicState, after: TopicState)
    requires
        after.batch_taken_from(&before),
    ensures
        before.pending_ihave@.len() <= MAX_IHAVE_BATCH_SIZE ==> after.pending_ihave@.len() == 0,
        before.pending_ihave@.len() > MAX_IHAVE_BATCH_SIZE ==> {
            &&& after.pending_ihave@.len() == before.pending_ihave@.len() - MAX_IHAVE_BATCH_SIZE
            &&& forall|i: int|
                0 <= i < after.pending_ihave@.len() ==> #[trigger] after.pending_ihave@[i] == before.pending_ihave@[i
                    + MAX_IHAVE_BATCH_SIZE]
        },
        after.eager_peers == before.eager_peers && after.lazy_peers == before.lazy_peers,
        after.message_cache == before.message_cache,
{
}

/// Every topic that has something to announce is announced, once; and no other.
pub proof fn every_pending_topic_is_announced(
    topics: IdMap<TopicId, TopicState>,
    work: Seq<IHaveWork>,
    topic: TopicId,
)
    requires
        topics_wf(topics),
        ({
            let due = topics.listed().filter(has_pending(topics@));
            &&& work.len() == due.len()
            &&& forall|i: int| 0 <= i < work.len() ==> work_of(#[trigger] work[i], due[i], topics@[due[i]])
        }),
    ensures
        (exists|i: int| 0 <= i < work.len() && (#[trigger] work[i]).topic == topic) <==> topics@.dom().contains(topic)
            && topics@[topic].pending_ihave@.len() > 0,
        forall|i: int, j: int| 0 <= i < j < work.len() ==> (#[trigger] work[i]).topic != (#[trigger] work[j]).topic,
{
    let listed = topics.listed();
    let pred = has_pending(topics@);
    topics.lemma_listed();
    let at = crate::order::lemma_filter_positions(listed, pred);
    if topics@.dom().contains(topic) && topics@[topic].pending_ihave@.len() > 0 {
        assert(listed.to_set().contains(topic));
        let i = listed.index_of(topic);
        assert(pred(listed[i]));
        let j = at.index_of(i);
        assert(at[j] == i);
        assert(work[j].topic == topic);
    }
    assert forall|i: int| 0 <= i < work.len() implies topics@.dom().contains((#[trigger] work[i]).topic)
        && topics@[work[i].topic].pending_ihave@.len() > 0 by {
        assert(pred(listed[at[i]]));
        assert(listed.contains(listed[at[i]]));
        assert(listed.to_set().contains(listed[at[i]]));
    }
    assert forall|i: int, j: int| 0 <= i < j < work.len() implies (#[trigger] work[i]).topic != (#[trigger] work[j]).topic by {
        assert(at[i] < at[j]);
        assert(listed[at[i]] != listed[at[j]]);
    }
}

/// Every topic that has messages and peers sends its list to one of its peers, once, and the list
/// names every message that is cached there; no other topic does.
pub proof fn every_topic_with_messages_and_peers_reconciles(
    topics: IdMap<TopicId, TopicState>,
    work: Seq<DigestWork>,
    unix_secs: u64,
    topic: TopicId,
)
    requires
        topics_wf(topics),
        ({
            let due = topics.listed().filter(can_reconcile(topics@));
            &&& work.len() == due.len()
            &&& forall|i: int|
                0 <= i < work.len() ==> digest_work_of(#[trigger] work[i], due[i], topics@[due[i]], unix_secs)
        }),
    ensures
        (exists|i: int| 0 <= i < work.len() && (#[trigger] work[i]).topic == topic) <==> topics@.dom().contains(topic)
            && topics@[topic].message_cache.order().len() > 0 && (topics@[topic].eager_peers@.len() > 0
            || topics@[topic].lazy_peers@.len() > 0),
        forall|i: int|
            0 <= i < work.len() ==> {
                let state = topics@[(#[trigger] work[i]).topic];
                &&& state.eager_peers@.contains(work[i].peer) || state.lazy_peers@.contains(work[i].peer)
                &&& work[i].ids@.len() == state.message_cache.order().len()
                &&& forall|j: int|
                    0 <= j < work[i].ids@.len() ==> #[trigger] work[i].ids@[j] == state.message_cache.order()[j].0
            },
        forall|i: int, j: int| 0 <= i < j < work.len() ==> (#[trigger] work[i]).topic != (#[trigger] work[j]).topic,
{
    let listed = topics.listed();
    let pred = can_reconcile(topics@);
    topics.lemma_listed();
    let at = crate::order::lemma_filter_positions(listed, pred);
    assert forall|t: TopicId| #[trigger] topics@.dom().contains(t) implies topics@[t].all_peers().len()
        == topics@[t].eager_peers@.len() + topics@[t].lazy_peers@.len() by {
        topics@[t].eager_peers.lemma_listed();
        topics@[t].lazy_peers.lemma_listed();
        topics@[t].eager_peers.listed().unique_seq_to_set();
        topics@[t].lazy_peers.listed().unique_seq_to_set();
    }
    if topics@.dom().contains(topic) && topics@[topic].message_cache.order().len() > 0 && (
    topics@[topic].eager_peers@.len() > 0 || topics@[topic].lazy_peers@.len() > 0) {
        assert(listed.to_set().contains(topic));
        let i = listed.index_of(topic);
        assert(pred(listed[i]));
        let j = at.index_of(i);
        assert(at[j] == i);
        assert(work[j].topic == topic);
    }
    assert forall|i: int| 0 <= i < work.len() implies {
        let t = (#[trigger] work[i]).topic;
        let state = topics@[t];
        &&& t == listed[at[i]]
        &&& topics@.dom().contains(t)
        &&& state.message_cache.order().len() > 0
        &&& state.eager_peers@.len() > 0 || state.lazy_peers@.len() > 0
        &&& state.eager_peers@.contains(work[i].peer) || state.lazy_peers@.contains(work[i].peer)
    } by {
        let t = listed[at[i]];
        assert(pred(t));
        assert(listed.contains(t));
        assert(listed.to_set().contains(t));
        let state = topics@[t];
        let all = state.all_peers();
        assert(all.len() > 0);
        state.eager_peers.lemma_listed();
        state.lazy_peers.lemma_listed();
        let n = digest_of(t.bytes@ + low_bytes(unix_secs as nat, 8))[0] as int % all.len() as int;
        assert(work[i].peer == all[n]);
        if n < state.eager_peers.listed().len() {
            assert(state.eager_peers.listed().to_set().contains(all[n]));
        } else {
            assert(all[n] == state.lazy_peers.listed()[n - state.eager_peers.listed().len()]);
            assert(state.lazy_peers.listed().to_set().contains(all[n]));
        }
    }
    assert forall|i: int, j: int| 0 <= i < j < work.len() implies (#[trigger] work[i]).topic != (#[trigger] work[j]).topic by {
        assert(at[i] < at[j]);
        assert(listed[at[i]] != listed[at[j]]);
    }
}

/// A message about other messages carries all of them, on the topic, under the first one's name, and
/// starts its way here; and there is one exactly where there is something to say.
pub proof fn lists_are_sent_in_full(
    r: Option<(MessageHeader, Vec<u8>)>,
    topic: TopicId,
    kind: MessageKind,
    ids: Seq<MessageId>,
)
    requires
        list_message_of(r, topic, kind, ids),
    ensures
        r is Some <==> ids.len() > 0,
        match r {
            Some((header, payload)) => {
                &&& header.topic == topic && header.kind == kind && header.msg_id == ids[0]
                &&& header.version == MESSAGE_VERSION && header.hop == 0 && header.ttl == MESSAGE_TTL
                &&& ids_in(payload@) == Some(ids)
            },
            None => true,
        },
{
}

/// The peers of a topic are its eager and its lazy ones, all of them and no others; the eager ones
/// come first.
pub proof fn all_peers_are_eager_or_lazy(state: TopicState, peer: PeerId)
    requires
        state.wf(),
    ensures
        state.all_peers().contains(peer) <==> state.eager_peers@.contains(peer) || state.lazy_peers@.contains(peer),
        state.eager_peers@.len() > 0 ==> state.all_peers().len() > 0 && state.eager_peers@.contains(
            state.all_peers()[0],
        ),
{
    state.eager_peers.lemma_listed();
    state.lazy_peers.lemma_listed();
    let eager = state.eager_peers.listed();
    let lazy = state.lazy_peers.listed();
    let all = state.all_peers();
    assert(eager.to_set().contains(peer) == eager.contains(peer));
    assert(lazy.to_set().contains(peer) == lazy.contains(peer));
    if eager.contains(peer) {
        assert(all[eager.index_of(peer)] == peer);
    }
    if lazy.contains(peer) {
        assert(all[eager.len() + lazy.index_of(peer)] == peer);
    }
    if all.contains(peer) {
        let i = all.index_of(peer);
        if i < eager.len() {
            assert(eager[i] == peer);
        } else {
            assert(lazy[i - eager.len()] == peer);
        }
    }
    if state.eager_peers@.len() > 0 {
        assert(eager.to_set().contains(eager[0]));
        assert(all[0] == eager[0]);
    }
}

} // verus!
