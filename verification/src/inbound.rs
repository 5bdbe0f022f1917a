//! Full messages: how one that comes in is taken, and how one goes out.

use vstd::prelude::*;

use crate::cache::{can_be_had, CachedMessage, PubSubCacheConfig};
use crate::collections::IdMap;
use crate::config::{
    secs, MAX_CACHE_AGE_SECS, MAX_CACHE_BYTES_PER_TOPIC, MAX_CACHE_SIZE, MAX_EAGER_DEGREE, REPLAY_CACHE_TTL_SECS,
};
use crate::cooling::PeerCoolingState;
use crate::digest::{content_hash, digest_of};
use crate::ids::{Identifier, MessageId, PeerId, TopicId};
use crate::mesh::degree_ceiling;
use crate::message::MessageHeader;
use crate::recency::{holds, value_of};
use crate::replay::{after_payload, is_replay, noted_lately};
use crate::score::PeerScore;
use crate::stats::{PubSubMessageKindStats, PubSubStageStats, SuppressedPeerKey};
use crate::time::{elapsed_between, Instant};
use crate::topic::{score_or_new, TopicState};
use crate::topics::topics_wf;
use crate::upkeep::copy_bytes;
use crate::wire::bytes_of;

verus! {

/// What a new topic starts with.
#[derive(Clone, Copy, Debug, PartialEq, Eq)]
pub struct TopicConfig {
    pub cache: PubSubCacheConfig,
    pub max_eager_degree: usize,
}

impl Default for TopicConfig {
    fn default() -> (r: Self)
        ensures
            r.cache.valid(),
            r.cache.max_messages_per_topic == MAX_CACHE_SIZE,
            r.cache.max_bytes_per_topic == MAX_CACHE_BYTES_PER_TOPIC,
            r.cache.max_age == secs(MAX_CACHE_AGE_SECS),
            r.max_eager_degree == MAX_EAGER_DEGREE,
    {
        TopicConfig { cache: PubSubCacheConfig::default(), max_eager_degree: MAX_EAGER_DEGREE }
    }
}

impl TopicConfig {
    /// Sets the most eager peers of new topics, zero for the usual number.
    pub fn with_eager_degree_ceiling(self, degree: usize) -> (r: Self)
        ensures
            r == (TopicConfig { max_eager_degree: degree_ceiling(degree), ..self }),
    {
        TopicConfig { max_eager_degree: if degree == 0 { MAX_EAGER_DEGREE } else { degree }, ..self }
    }
}

impl TopicState {
    /// The topic is empty.
    pub open spec fn started(&self, config: TopicConfig, now: Instant) -> bool {
        &&& self.eager_peers@ == Set::<PeerId>::empty()
        &&& self.lazy_peers@ == Set::<PeerId>::empty()
        &&& self.message_cache.is_new()
        &&& self.message_cache.max_count() == config.cache.max_messages_per_topic
        &&& self.message_cache.max_bytes() == config.cache.max_bytes_per_topic
        &&& self.message_cache.max_age() == config.cache.max_age
        &&& self.pending_ihave@.len() == 0
        &&& self.outstanding_iwants@ == Map::<MessageId, (PeerId, Instant)>::empty()
        &&& self.peer_scores@ == Map::<PeerId, PeerScore>::empty()
        &&& self.live_subscribers == 0
        &&& self.replay_cache.seen().len() == 0
        &&& self.replay_cache.ttl() == secs(REPLAY_CACHE_TTL_SECS)
        &&& self.last_activity == now
        &&& self.peer_cooling@ == Map::<PeerId, PeerCoolingState>::empty()
        &&& self.last_opportunistic_graft is None
        &&& self.max_eager_degree == config.max_eager_degree
    }
}

/// Makes sure that the node has a topic; says whether it is new.
pub fn ensure_topic(topics: &mut IdMap<TopicId, TopicState>, topic: TopicId, config: TopicConfig, now: Instant) -> (r:
    bool)
    requires
        topics_wf(*old(topics)),
        config.cache.valid(),
    ensures
        topics_wf(*final(topics)),
        r == !old(topics)@.dom().contains(topic),
        !r ==> *final(topics) == *old(topics),
        r ==> {
            &&& final(topics)@.dom() == old(topics)@.dom().insert(topic)
            &&& final(topics)@[topic].started(config, now)
            &&& forall|t: TopicId| #[trigger] old(topics)@.dom().contains(t) ==> final(topics)@[t] == old(topics)@[t]
        },
{
    if topics.contains_key(&topic) {
        return false;
    }
    let mut state = TopicState::with_cache_config(config.cache, now);
    state.max_eager_degree = config.max_eager_degree;
    topics.insert(topic, state);
    assert(topics@.dom() =~= old(topics)@.dom().insert(topic));
    true
}

/// Takes a local subscriber of a topic in; a new topic is started for it.
pub fn subscribe(topics: &mut IdMap<TopicId, TopicState>, topic: TopicId, config: TopicConfig, now: Instant)
    requires
        topics_wf(*old(topics)),
        config.cache.valid(),
    ensures
        topics_wf(*final(topics)),
        final(topics)@.dom() == old(topics)@.dom().insert(topic),
        forall|t: TopicId| t != topic && #[trigger] old(topics)@.dom().contains(t) ==> final(topics)@[t] == old(
            topics,
        )@[t],
        old(topics)@.dom().contains(topic) ==> final(topics)@[topic] == (TopicState {
            last_activity: now,
            live_subscribers: if old(topics)@[topic].live_subscribers < usize::MAX {
                (old(topics)@[topic].live_subscribers + 1) as usize
            } else {
                usize::MAX
            },
            ..old(topics)@[topic]
        }),
        !old(topics)@.dom().contains(topic) ==> exists|start: TopicState|
            {
                &&& #[trigger] start.started(config, now)
                &&& final(topics)@[topic] == (TopicState { live_subscribers: 1, ..start })
            },
{
    ensure_topic(topics, topic, config, now);
    let ghost before = topics@;
    if let Some(state) = topics.get_mut(&topic) {
        state.touch(now);
        state.live_subscribers = state.live_subscribers.saturating_add(1);
    }
    assert(topics@.dom() =~= old(topics)@.dom().insert(topic));
    assert(!old(topics)@.dom().contains(topic) ==> before[topic].started(config, now));
}

/// What became of a full message that came in.
#[derive(Clone, Copy, Debug, PartialEq, Eq, Structural)]
pub enum EagerOutcome {
    /// The signature is wrong; nothing was changed.
    InvalidSignature,
    /// The message is known: its sender need not send full messages.
    Duplicate { pruned: bool },
    /// The message holds nothing.
    MissingPayload,
    /// The message is new, but its payload is not.
    Replay,
    /// The message is new; its sender may be so too.
    Accepted { newly_lazy: bool },
}

/// The reports after a peer was heard of.
pub open spec fn inbound_reported(
    after: PubSubStageStats,
    before: PubSubStageStats,
    topic: TopicId,
    peer: PeerId,
    cooled: bool,
    pruned: bool,
) -> bool {
    &&& after.message_kinds == (if pruned {
        PubSubMessageKindStats { prune: before.message_kinds.prune.wrapping_add(1), ..before.message_kinds }
    } else {
        before.message_kinds
    })
    &&& after.same_timings(&before)
    &&& after.republish_per_peer_timeout == before.republish_per_peer_timeout
    &&& after.outbound_budget_exhausted == before.outbound_budget_exhausted
    &&& after.cooldown_bypass_probes == before.cooldown_bypass_probes
    &&& after.cooldown_bypass_successes == before.cooldown_bypass_successes
    &&& after.suppression_cleanup == before.suppression_cleanup
    &&& after.suppressed_peers@ == (if cooled {
        before.suppressed_peers@.remove(SuppressedPeerKey { topic, peer })
    } else {
        before.suppressed_peers@
    })
}

impl TopicState {
    /// A verified message of a peer has come in: the topic is in use, the peer was heard of and is
    /// no longer cooled.
    pub open spec fn inbound_noted(&self, before: &Self, peer: PeerId, now: Instant) -> bool {
        &&& self.last_activity == now
        &&& self.peer_cooling@ == before.peer_cooling@.remove(peer)
        &&& self.peer_scores@ == before.peer_scores@.insert(
            peer,
            score_or_new(before.peer_scores@, peer, now).seen(now),
        )
        &&& self.same_mesh(before)
        &&& self.message_cache == before.message_cache
        &&& self.pending_ihave == before.pending_ihave
        &&& self.outstanding_iwants == before.outstanding_iwants
        &&& self.live_subscribers == before.live_subscribers
        &&& self.replay_cache == before.replay_cache
    }

    /// A verified message of a peer has come in.
    pub fn record_verified_inbound(&mut self, stats: &mut PubSubStageStats, topic: TopicId, peer: PeerId, now: Instant)
        requires
            old(self).wf(),
            old(stats).wf(),
        ensures
            final(self).wf(),
            final(stats).wf(),
            final(self).inbound_noted(old(self), peer, now),
            inbound_reported(
                *final(stats),
                *old(stats),
                topic,
                peer,
                old(self).peer_cooling@.dom().contains(peer),
                false,
            ),
    {
        self.touch(now);
        if self.record_inbound_peer_activity_at(peer, now) {
            stats.clear_peer_suppression(topic, peer);
        }
    }

    /// All that a full message with a good signature changes, `key` being the hash of its payload.
    pub open spec fn eager_received(
        &self,
        before: &Self,
        from: PeerId,
        header: MessageHeader,
        payload: Option<Seq<u8>>,
        key: [u8; 32],
        now: Instant,
        outcome: EagerOutcome,
    ) -> bool {
        let id = header.msg_id;
        let seen = score_or_new(before.peer_scores@, from, now).seen(now);
        &&& self.last_activity == now
        &&& self.live_subscribers == before.live_subscribers
        &&& self.pending_ihave == before.pending_ihave
        &&& self.last_opportunistic_graft == before.last_opportunistic_graft
        &&& self.max_eager_degree == before.max_eager_degree
        &&& self.peer_cooling@ == before.peer_cooling@.remove(from)
        &&& if holds(before.message_cache.order(), id) {
            &&& outcome == (EagerOutcome::Duplicate { pruned: before.eager_peers@.contains(from) })
            &&& self.demoted(before, from)
            &&& self.peer_scores@ == before.peer_scores@.insert(from, seen)
            &&& self.message_cache == before.message_cache
            &&& self.outstanding_iwants == before.outstanding_iwants
            &&& self.replay_cache == before.replay_cache
        } else if payload is None {
            &&& outcome == EagerOutcome::MissingPayload
            &&& self.same_mesh(before)
            &&& self.peer_scores@ == before.peer_scores@.insert(from, seen)
            &&& self.message_cache == before.message_cache
            &&& self.outstanding_iwants == before.outstanding_iwants
            &&& self.replay_cache == before.replay_cache
        } else {
            &&& exists|message: CachedMessage|
                {
                    &&& message.payload@ == payload->0
                    &&& message.header == header
                    &&& #[trigger] self.message_cached(before, id, message, now)
                }
            &&& self.outstanding_iwants@ == before.outstanding_iwants@.remove(id)
            &&& self.peer_scores@ == before.peer_scores@.insert(
                from,
                if before.outstanding_iwants@.dom().contains(id) {
                    seen.delivered(now).responded(now)
                } else {
                    seen.delivered(now)
                },
            )
            &&& self.replay_cache.seen() == after_payload(
                before.replay_cache.seen(),
                key,
                now,
                before.replay_cache.ttl(),
            )
            &&& self.replay_cache.ttl() == before.replay_cache.ttl()
            &&& if is_replay(before.replay_cache.seen(), key, now, before.replay_cache.ttl()) {
                &&& outcome == EagerOutcome::Replay
                &&& self.same_mesh(before)
            } else {
                let stranger = !before.eager_peers@.contains(from) && !before.lazy_peers@.contains(from);
                &&& outcome == (EagerOutcome::Accepted { newly_lazy: stranger })
                &&& self.eager_peers == before.eager_peers
                &&& self.lazy_peers@ == if stranger { before.lazy_peers@.insert(from) } else { before.lazy_peers@ }
            }
        }
    }

    /// Takes a full message whose signature is good, `key` being the hash of its payload. A known
    /// one demotes its sender. A new one is cached, and unless its payload has come before it is to
    /// be delivered and forwarded; an unknown sender becomes a lazy peer.
    pub fn receive_hashed_eager(
        &mut self,
        stats: &mut PubSubStageStats,
        from: PeerId,
        header: &MessageHeader,
        payload: &Option<Vec<u8>>,
        key: [u8; 32],
        now: Instant,
    ) -> (r: EagerOutcome)
        requires
            old(self).wf(),
            old(stats).wf(),
        ensures
            final(self).wf(),
            final(stats).wf(),
            final(self).eager_received(old(self), from, *header, bytes_of(*payload), key, now, r),
            inbound_reported(
                *final(stats),
                *old(stats),
                header.topic,
                from,
                old(self).peer_cooling@.dom().contains(from),
                r == (EagerOutcome::Duplicate { pruned: true }),
            ),
    {
        let msg_id: MessageId = header.msg_id;
        self.record_verified_inbound(stats, header.topic, from, now);
        if self.has_message(&msg_id) {
            let pruned = self.prune_peer(from);
            if pruned {
                stats.message_kinds.record_prune();
            }
            return EagerOutcome::Duplicate { pruned };
        }
        let bytes: Vec<u8> = match payload {
            Some(bytes) => copy_bytes(bytes),
            None => {
                return EagerOutcome::MissingPayload;
            },
        };
        let ghost message = CachedMessage { payload: bytes, header: *header };
        self.cache_message(msg_id, bytes, *header, now);
        assert(self.message_cached(old(self), msg_id, message, now));
        let mut score = match self.peer_scores.get(&from) {
            Some(score) => *score,
            None => PeerScore::new_at(now),
        };
        score.record_delivery(now);
        if self.outstanding_iwants.remove(&msg_id).is_some() {
            score.record_iwant_response(now);
        }
        self.peer_scores.insert(from, score);
        assert(self.peer_scores@ =~= old(self).peer_scores@.insert(from, score));
        let replay = self.is_digest_replay(key, now);
        let r = if replay {
            EagerOutcome::Replay
        } else {
            EagerOutcome::Accepted { newly_lazy: self.add_new_peer_lazy(from) }
        };
        assert(self.message_cached(old(self), msg_id, message, now));
        r
    }

    /// Takes a full message. One with a wrong signature changes nothing.
    pub fn receive_eager(
        &mut self,
        stats: &mut PubSubStageStats,
        from: PeerId,
        header: &MessageHeader,
        payload: &Option<Vec<u8>>,
        signature_valid: bool,
        now: Instant,
    ) -> (r: EagerOutcome)
        requires
            old(self).wf(),
            old(stats).wf(),
        ensures
            final(self).wf(),
            final(stats).wf(),
            !signature_valid ==> {
                &&& r == EagerOutcome::InvalidSignature
                &&& *final(self) == *old(self)
                &&& *final(stats) == *old(stats)
            },
            signature_valid ==> {
                &&& exists|key: [u8; 32]|
                    {
                        &&& payload is Some ==> key == digest_of(payload->0@)
                        &&& #[trigger] final(self).eager_received(
                            old(self),
                            from,
                            *header,
                            bytes_of(*payload),
                            key,
                            now,
                            r,
                        )
                    }
                &&& inbound_reported(
                    *final(stats),
                    *old(stats),
                    header.topic,
                    from,
                    old(self).peer_cooling@.dom().contains(from),
                    r == (EagerOutcome::Duplicate { pruned: true }),
                )
            },
    {
        if !signature_valid {
            return EagerOutcome::InvalidSignature;
        }
        let key: [u8; 32] = match payload {
            Some(bytes) => content_hash(bytes.as_slice()),
            None => [0u8; 32],
        };
        self.receive_hashed_eager(stats, from, header, payload, key, now)
    }

    /// The eager peers but for one.
    pub fn eager_peers_except(&self, from: PeerId) -> (r: Vec<PeerId>)
        requires
            self.wf(),
        ensures
            r@.no_duplicates(),
            r@.to_set() == self.eager_peers@.remove(from),
    {
        let all = self.eager_peers.to_vec();
        let mut r: Vec<PeerId> = Vec::new();
        let mut i: usize = 0;
        while i < all.len()
            invariant
                i <= all@.len(),
                all@.no_duplicates(),
                r@.no_duplicates(),
                forall|p: PeerId| #[trigger] r@.contains(p) <==> all@.take(i as int).contains(p) && p != from,
            decreases all@.len() - i,
        {
            let peer = all[i];
            let ghost before = r@;
            proof {
                assert(all@.take(i + 1) =~= all@.take(i as int).insert(i as int, peer));
                crate::order::lemma_insert_members(all@.take(i as int), i as int, peer);
                assert forall|p: PeerId| #[trigger] all@.take(i + 1).contains(p) == (all@.take(i as int).contains(p)
                    || p == peer) by {
                    assert(all@.take(i + 1).to_set().contains(p) == all@.take(i as int).to_set().insert(peer).contains(
                        p,
                    ));
                }
                assert(!all@.take(i as int).contains(peer));
            }
            if !peer.same(&from) {
                assert(!before.contains(peer));
                r.push(peer);
                proof {
                    assert(r@ =~= before.insert(before.len() as int, peer));
                    crate::order::lemma_insert_members(before, before.len() as int, peer);
                    assert forall|p: PeerId| #[trigger] r@.contains(p) == (before.contains(p) || p == peer) by {
                        assert(r@.to_set().contains(p) == before.to_set().insert(peer).contains(p));
                    }
                }
            }
            i = i + 1;
        }
        proof {
            assert(all@.take(all@.len() as int) =~= all@);
            assert forall|p: PeerId| r@.to_set().contains(p) == self.eager_peers@.remove(from).contains(p) by {
                assert(r@.contains(p) == (all@.contains(p) && p != from));
                assert(all@.to_set().contains(p) == all@.contains(p));
            }
            assert(r@.to_set() =~= self.eager_peers@.remove(from));
        }
        r
    }

    /// An accepted message goes on: to the eager peers but its sender at once, and to the lazy ones
    /// by name. Lists the former, and says whether the sender is one of the eager peers.
    pub fn forward_eager(&mut self, from: PeerId, msg_id: MessageId) -> (r: (Vec<PeerId>, bool))
        requires
            old(self).wf(),
        ensures
            final(self).wf(),
            (r.0)@.no_duplicates(),
            (r.0)@.to_set() == old(self).eager_peers@.remove(from),
            r.1 == old(self).eager_peers@.contains(from),
            final(self).pending_ihave@ == old(self).pending_ihave@.push(msg_id),
            *final(self) == (TopicState { pending_ihave: final(self).pending_ihave, ..*old(self) }),
    {
        let peers = self.eager_peers_except(from);
        let in_mesh = self.eager_peers.contains(&from);
        self.pending_ihave.push(msg_id);
        (peers, in_mesh)
    }

    /// The topic after a message of this node: it is cached and its payload remembered.
    pub open spec fn published_from(
        &self,
        before: &Self,
        header: MessageHeader,
        payload: Seq<u8>,
        now: Instant,
    ) -> bool {
        &&& exists|message: CachedMessage|
            {
                &&& message.payload@ == payload
                &&& message.header == header
                &&& #[trigger] self.message_cached(before, header.msg_id, message, now)
            }
        &&& self.replay_cache.seen() == after_payload(
            before.replay_cache.seen(),
            digest_of(payload),
            now,
            before.replay_cache.ttl(),
        )
        &&& self.replay_cache.ttl() == before.replay_cache.ttl()
        &&& self.last_activity == now
        &&& self.same_mesh(before)
        &&& self.pending_ihave == before.pending_ihave
        &&& self.outstanding_iwants == before.outstanding_iwants
        &&& self.live_subscribers == before.live_subscribers
        &&& self.peer_scores == before.peer_scores
        &&& self.peer_cooling == before.peer_cooling
    }

    /// A message of this node goes out: it is cached, its payload remembered, and the eager peers
    /// listed.
    pub fn publish_local(&mut self, header: &MessageHeader, payload: &Vec<u8>, now: Instant) -> (r: Vec<PeerId>)
        requires
            old(self).wf(),
        ensures
            final(self).wf(),
            r@.no_duplicates(),
            r@.to_set() == old(self).eager_peers@,
            final(self).published_from(old(self), *header, payload@, now),
    {
        let bytes = copy_bytes(payload);
        let ghost message = CachedMessage { payload: bytes, header: *header };
        self.cache_message(header.msg_id, bytes, *header, now);
        assert(self.message_cached(old(self), header.msg_id, message, now));
        self.is_payload_replay(payload.as_slice(), now);
        assert(self.message_cached(old(self), header.msg_id, message, now));
        self.eager_peers.to_vec()
    }

    /// A message of this node has gone out: the lazy peers are to hear of it.
    pub fn finish_publish(&mut self, msg_id: MessageId)
        ensures
            final(self).pending_ihave@ == old(self).pending_ihave@.push(msg_id),
            *final(self) == (TopicState { pending_ihave: final(self).pending_ihave, ..*old(self) }),
    {
        self.pending_ihave.push(msg_id);
    }
}

/// What a full message adds to the long-term score of its sender.
#[derive(Clone, Copy, Debug, PartialEq, Eq, Structural)]
pub struct LongTermNotes {
    pub invalid_message: bool,
    pub mesh_pruned: bool,
    pub first_delivery: bool,
    pub mesh_join: bool,
}

/// What is noted of the sender of a full message: a wrong signature, the loss of its place in the
/// mesh, a message that was new, even if its payload was not, and its place in the mesh once a
/// message of it was accepted.
pub fn long_term_notes(outcome: EagerOutcome, in_mesh: bool) -> (r: LongTermNotes)
    ensures
        r.invalid_message == (outcome is InvalidSignature),
        r.mesh_pruned == (outcome == EagerOutcome::Duplicate { pruned: true }),
        r.first_delivery == (outcome is Replay || outcome is Accepted),
        r.mesh_join == (outcome is Accepted && in_mesh),
{
    let mut r = LongTermNotes {
        invalid_message: false,
        mesh_pruned: false,
        first_delivery: false,
        mesh_join: false,
    };
    match outcome {
        EagerOutcome::InvalidSignature => {
            r.invalid_message = true;
        },
        EagerOutcome::Duplicate { pruned } => {
            r.mesh_pruned = pruned;
        },
        EagerOutcome::MissingPayload => {},
        EagerOutcome::Replay => {
            r.first_delivery = true;
        },
        EagerOutcome::Accepted { .. } => {
            r.first_delivery = true;
            r.mesh_join = in_mesh;
        },
    }
    r
}

/// A message that was accepted is known from then on, unless it is larger than the whole cache: it
/// is not accepted a second time.
pub proof fn accepted_message_is_known(
    before: TopicState,
    after: TopicState,
    from: PeerId,
    header: MessageHeader,
    payload: Seq<u8>,
    key: [u8; 32],
    now: Instant,
    newly_lazy: bool,
)
    requires
        after.eager_received(
            &before,
            from,
            header,
            Some(payload),
            key,
            now,
            EagerOutcome::Accepted { newly_lazy },
        ),
        payload.len() + crate::config::MESSAGE_HEADER_OVERHEAD_BYTES + crate::config::MESSAGE_CRYPTO_OVERHEAD_BYTES
            <= before.message_cache.max_bytes(),
        before.message_cache.max_bytes() <= usize::MAX,
    ensures
        holds(after.message_cache.order(), header.msg_id),
        forall|
            again: TopicState,
            sender: PeerId,
            second: MessageHeader,
            body: Option<Seq<u8>>,
            hash: [u8; 32],
            later: Instant,
            outcome: EagerOutcome,
        |
            second.msg_id == header.msg_id && #[trigger] again.eager_received(
                &after,
                sender,
                second,
                body,
                hash,
                later,
                outcome,
            ) ==> outcome is Duplicate,
{
    let message = choose|message: CachedMessage|
        {
            &&& message.payload@ == payload
            &&& message.header == header
            &&& #[trigger] after.message_cached(&before, header.msg_id, message, now)
        };
    assert(after.message_cache.order()[0].0 == header.msg_id);
}

/// A message that carries a payload which was accepted before is a replay, whatever envelope it
/// comes in.
pub proof fn accepted_payload_is_a_replay(
    before: TopicState,
    after: TopicState,
    from: PeerId,
    header: MessageHeader,
    payload: Seq<u8>,
    key: [u8; 32],
    now: Instant,
    newly_lazy: bool,
    later: Instant,
)
    requires
        before.wf(),
        after.eager_received(
            &before,
            from,
            header,
            Some(payload),
            key,
            now,
            EagerOutcome::Accepted { newly_lazy },
        ),
        elapsed_between(later, now) < secs(REPLAY_CACHE_TTL_SECS).nanos,
    ensures
        is_replay(after.replay_cache.seen(), key, later, after.replay_cache.ttl()),
        forall|
            again: TopicState,
            sender: PeerId,
            second: MessageHeader,
            body: Option<Seq<u8>>,
            outcome: EagerOutcome,
        |
            #[trigger] again.eager_received(&after, sender, second, body, key, later, outcome) ==> !(outcome is Accepted),
{
    before.replay_cache.lemma_distinct();
    crate::replay::noted_payload_is_a_replay(
        before.replay_cache.seen(),
        key,
        now,
        later,
        before.replay_cache.ttl(),
    );
}

/// A new message whose payload was not seen within the time for which it counts is accepted.
pub proof fn unseen_payload_is_accepted(
    before: TopicState,
    after: TopicState,
    from: PeerId,
    header: MessageHeader,
    payload: Seq<u8>,
    key: [u8; 32],
    now: Instant,
    outcome: EagerOutcome,
)
    requires
        before.wf(),
        after.eager_received(&before, from, header, Some(payload), key, now, outcome),
        !holds(before.message_cache.order(), header.msg_id),
        holds(before.replay_cache.seen(), key) ==> elapsed_between(now, value_of(before.replay_cache.seen(), key))
            >= secs(REPLAY_CACHE_TTL_SECS).nanos,
    ensures
        outcome is Accepted,
{
    before.replay_cache.lemma_distinct();
}

/// A message of this node that comes back is not accepted, whatever envelope it comes in.
pub proof fn published_payload_is_a_replay(
    before: TopicState,
    after: TopicState,
    header: MessageHeader,
    payload: Seq<u8>,
    now: Instant,
    later: Instant,
)
    requires
        before.wf(),
        after.published_from(&before, header, payload, now),
        !is_replay(before.replay_cache.seen(), digest_of(payload), now, before.replay_cache.ttl()),
        elapsed_between(later, now) < secs(REPLAY_CACHE_TTL_SECS).nanos,
    ensures
        forall|
            again: TopicState,
            sender: PeerId,
            second: MessageHeader,
            body: Option<Seq<u8>>,
            outcome: EagerOutcome,
        |
            #[trigger] again.eager_received(&after, sender, second, body, digest_of(payload), later, outcome) ==> !(
            outcome is Accepted),
{
    before.replay_cache.lemma_distinct();
    crate::replay::noted_payload_is_a_replay(
        before.replay_cache.seen(),
        digest_of(payload),
        now,
        later,
        before.replay_cache.ttl(),
    );
}

/// A good message of a peer ends its cooling.
pub proof fn inbound_ends_cooling(before: TopicState, after: TopicState, peer: PeerId, now: Instant, later: Instant)
    requires
        after.inbound_noted(&before, peer, now),
    ensures
        !after.peer_suppressed(peer, later),
        !after.peer_cooling@.dom().contains(peer),
{
}

/// Taking a full message keeps the roles apart and makes no peer eager.
pub proof fn receiving_keeps_the_roles_apart(
    before: TopicState,
    after: TopicState,
    from: PeerId,
    header: MessageHeader,
    payload: Option<Seq<u8>>,
    key: [u8; 32],
    now: Instant,
    outcome: EagerOutcome,
)
    requires
        before.roles_disjoint(),
        after.eager_received(&before, from, header, payload, key, now, outcome),
    ensures
        after.roles_disjoint(),
        after.eager_peers@.subset_of(before.eager_peers@),
{
}

/// A new message that fits the cache can be had from then on, with exactly its payload and its
/// header, until it reaches the greatest age. So it is even where its payload had come before.
pub proof fn received_message_can_be_had_again(
    before: TopicState,
    after: TopicState,
    from: PeerId,
    header: MessageHeader,
    payload: Seq<u8>,
    key: [u8; 32],
    now: Instant,
    outcome: EagerOutcome,
    later: Instant,
)
    requires
        before.wf(),
        after.eager_received(&before, from, header, Some(payload), key, now, outcome),
        outcome is Accepted || outcome is Replay,
        payload.len() + crate::config::MESSAGE_HEADER_OVERHEAD_BYTES + crate::config::MESSAGE_CRYPTO_OVERHEAD_BYTES
            <= before.message_cache.max_bytes(),
    ensures
        after.message_cache.messages().dom().contains(header.msg_id),
        after.message_cache.messages()[header.msg_id].payload@ == payload,
        after.message_cache.messages()[header.msg_id].header == header,
        after.message_cache.max_age() == before.message_cache.max_age(),
        now.nanos <= later.nanos && later.nanos - now.nanos < before.message_cache.max_age().nanos ==> can_be_had(
            after.message_cache,
            header.msg_id,
            later,
        ),
{
    assert(exists|message: CachedMessage|
        {
            &&& message.payload@ == payload
            &&& message.header == header
            &&& #[trigger] after.message_cached(&before, header.msg_id, message, now)
        });
    let message = choose|message: CachedMessage|
        {
            &&& message.payload@ == payload
            &&& message.header == header
            &&& #[trigger] after.message_cached(&before, header.msg_id, message, now)
        };
    crate::upkeep::cached_messages_can_be_had(before, after, header.msg_id, message, now, later);
}

/// A message of this node that fits the cache can be had from then on, with exactly its payload and
/// its header, until it reaches the greatest age.
pub proof fn published_message_can_be_had(
    before: TopicState,
    after: TopicState,
    header: MessageHeader,
    payload: Seq<u8>,
    now: Instant,
    later: Instant,
)
    requires
        before.wf(),
        after.published_from(&before, header, payload, now),
        payload.len() + crate::config::MESSAGE_HEADER_OVERHEAD_BYTES + crate::config::MESSAGE_CRYPTO_OVERHEAD_BYTES
            <= before.message_cache.max_bytes(),
    ensures
        after.message_cache.messages().dom().contains(header.msg_id),
        after.message_cache.messages()[header.msg_id].payload@ == payload,
        after.message_cache.messages()[header.msg_id].header == header,
        now.nanos <= later.nanos && later.nanos - now.nanos < before.message_cache.max_age().nanos ==> can_be_had(
            after.message_cache,
            header.msg_id,
            later,
        ),
        after.eager_peers == before.eager_peers && after.lazy_peers == before.lazy_peers,
        after.last_activity == now,
        after.pending_ihave == before.pending_ihave && after.outstanding_iwants == before.outstanding_iwants,
        after.peer_scores == before.peer_scores && after.peer_cooling == before.peer_cooling,
        after.replay_cache.seen().len() > 0 && after.replay_cache.seen()[0].0 == digest_of(payload),
{
    assert(exists|message: CachedMessage|
        {
            &&& message.payload@ == payload
            &&& message.header == header
            &&& #[trigger] after.message_cached(&before, header.msg_id, message, now)
        });
    let message = choose|message: CachedMessage|
        {
            &&& message.payload@ == payload
            &&& message.header == header
            &&& #[trigger] after.message_cached(&before, header.msg_id, message, now)
        };
    crate::upkeep::cached_messages_can_be_had(before, after, header.msg_id, message, now, later);
    crate::replay::payloads_are_remembered(before.replay_cache, digest_of(payload), now);
}

/// What a full message comes to: one whose identifier is cached is a duplicate, one without a
/// payload is refused, one whose payload was noted lately is a replay, and any other is accepted.
pub proof fn messages_are_told_apart(
    before: TopicState,
    after: TopicState,
    from: PeerId,
    header: MessageHeader,
    payload: Option<Seq<u8>>,
    key: [u8; 32],
    now: Instant,
    outcome: EagerOutcome,
)
    requires
        before.wf(),
        after.eager_received(&before, from, header, payload, key, now, outcome),
    ensures
        ({
            let known = exists|i: int|
                0 <= i < before.message_cache.order().len() && (#[trigger] before.message_cache.order()[i]).0
                    == header.msg_id;
            let replay = noted_lately(before.replay_cache.seen(), key, now);
            &&& outcome is Duplicate <==> known
            &&& outcome is MissingPayload <==> !known && payload is None
            &&& outcome is Replay <==> !known && payload is Some && replay
            &&& outcome is Accepted <==> !known && payload is Some && !replay
            &&& !(outcome is InvalidSignature)
        }),
{
    crate::replay::replays_were_noted_lately(before.replay_cache, key, now);
}

/// What a full message does to the roles: the sender of a known one is not eager any longer, the
/// sender of an accepted one has a role, and nothing else changes.
pub proof fn messages_move_their_sender_only(
    before: TopicState,
    after: TopicState,
    from: PeerId,
    header: MessageHeader,
    payload: Option<Seq<u8>>,
    key: [u8; 32],
    now: Instant,
    outcome: EagerOutcome,
    other: PeerId,
)
    requires
        after.eager_received(&before, from, header, payload, key, now, outcome),
    ensures
        outcome is Duplicate ==> !after.eager_peers@.contains(from) && (before.eager_peers@.contains(from)
            ==> after.lazy_peers@.contains(from)),
        outcome is Duplicate ==> (outcome == (EagerOutcome::Duplicate { pruned: true })
            <==> before.eager_peers@.contains(from)),
        !(outcome is Duplicate) ==> after.eager_peers@ == before.eager_peers@,
        outcome is Accepted ==> after.eager_peers@.contains(from) || after.lazy_peers@.contains(from),
        outcome is Accepted ==> (outcome == (EagerOutcome::Accepted { newly_lazy: true })
            <==> !before.eager_peers@.contains(from) && !before.lazy_peers@.contains(from)),
        outcome is Replay || outcome is MissingPayload ==> after.lazy_peers@ == before.lazy_peers@,
        before.lazy_peers@.contains(from) ==> after.lazy_peers@.contains(from),
        other != from ==> after.eager_peers@.contains(other) == before.eager_peers@.contains(other),
        other != from ==> after.lazy_peers@.contains(other) == before.lazy_peers@.contains(other),
{
}

/// What a full message does to what is known of its sender: it was heard of, it is not cooled, a
/// new message counts as delivered, and one that was asked for as an answer too.
pub proof fn messages_count_for_their_sender(
    before: TopicState,
    after: TopicState,
    from: PeerId,
    header: MessageHeader,
    payload: Option<Seq<u8>>,
    key: [u8; 32],
    now: Instant,
    outcome: EagerOutcome,
    other: PeerId,
    id: MessageId,
)
    requires
        after.eager_received(&before, from, header, payload, key, now, outcome),
        before.peer_scores@.dom().contains(from) ==> before.peer_scores@[from].messages_delivered < u64::MAX
            && before.peer_scores@[from].iwant_responses < u64::MAX,
    ensures
        ({
            let fresh = outcome is Accepted || outcome is Replay;
            let known = before.peer_scores@.dom().contains(from);
            let delivered = if known { before.peer_scores@[from].messages_delivered } else { 0 };
            let answered = if known { before.peer_scores@[from].iwant_responses } else { 0 };
            let asked = before.outstanding_iwants@.dom().contains(header.msg_id);
            let score = after.peer_scores@[from];
            &&& after.peer_scores@.dom().contains(from)
            &&& score.last_seen.nanos >= now.nanos
            &&& score.messages_delivered == delivered + (if fresh { 1int } else { 0 })
            &&& score.iwant_responses == answered + (if fresh && asked { 1int } else { 0 })
            &&& known ==> score.iwant_requests == before.peer_scores@[from].iwant_requests
            &&& known ==> score.outbound_send_timeouts == before.peer_scores@[from].outbound_send_timeouts
            &&& known ==> score.outbound_send_successes == before.peer_scores@[from].outbound_send_successes
            &&& known ==> score.cooling_events == before.peer_scores@[from].cooling_events
            &&& fresh ==> !after.outstanding_iwants@.dom().contains(header.msg_id)
            &&& !fresh ==> after.outstanding_iwants@ == before.outstanding_iwants@
            &&& id != header.msg_id ==> after.outstanding_iwants@.dom().contains(id)
                == before.outstanding_iwants@.dom().contains(id)
        }),
        !after.peer_cooling@.dom().contains(from),
        other != from ==> after.peer_cooling@.dom().contains(other) == before.peer_cooling@.dom().contains(other),
        other != from && before.peer_cooling@.dom().contains(other) ==> after.peer_cooling@[other]
            == before.peer_cooling@[other],
        other != from ==> after.peer_scores@.dom().contains(other) == before.peer_scores@.dom().contains(other),
        other != from && before.peer_scores@.dom().contains(other) ==> after.peer_scores@[other]
            == before.peer_scores@[other],
        after.last_activity == now,
        after.pending_ihave@ == before.pending_ihave@,
        after.live_subscribers == before.live_subscribers,
{
}

/// What is reported of a peer that was heard of: it is no longer reported as suppressed on the topic
/// where it was cooled there, and a demotion counts once; nothing else changes.
pub proof fn heard_peers_are_no_longer_reported(
    after: PubSubStageStats,
    before: PubSubStageStats,
    topic: TopicId,
    peer: PeerId,
    cooled: bool,
    pruned: bool,
    other: SuppressedPeerKey,
)
    requires
        inbound_reported(after, before, topic, peer, cooled, pruned),
        before.message_kinds.prune < u64::MAX,
    ensures
        cooled ==> !after.suppressed_peers@.dom().contains(SuppressedPeerKey { topic, peer }),
        other != (SuppressedPeerKey { topic, peer }) || !cooled ==> after.suppressed_peers@.dom().contains(other)
            == before.suppressed_peers@.dom().contains(other),
        other != (SuppressedPeerKey { topic, peer }) && before.suppressed_peers@.dom().contains(other)
            ==> after.suppressed_peers@[other] == before.suppressed_peers@[other],
        after.message_kinds.prune == before.message_kinds.prune + (if pruned { 1int } else { 0 }),
        after.message_kinds.graft == before.message_kinds.graft,
        after.message_kinds.eager == before.message_kinds.eager,
        after.outbound_budget_exhausted == before.outbound_budget_exhausted,
{
}

/// A new topic has nobody and nothing in it, and the bounds that it was given.
pub proof fn new_topics_are_empty(state: TopicState, config: TopicConfig, now: Instant, peer: PeerId, id: MessageId)
    requires
        state.started(config, now),
    ensures
        !state.eager_peers@.contains(peer) && !state.lazy_peers@.contains(peer),
        !state.peer_cooling@.dom().contains(peer) && !state.peer_scores@.dom().contains(peer),
        !state.message_cache.messages().dom().contains(id) && !state.outstanding_iwants@.dom().contains(id),
        state.message_cache.order().len() == 0 && state.replay_cache.seen().len() == 0,
        state.pending_ihave@.len() == 0 && state.live_subscribers == 0,
        state.last_activity == now && state.last_opportunistic_graft is None,
        state.message_cache.max_count() == config.cache.max_messages_per_topic,
        state.message_cache.max_bytes() == config.cache.max_bytes_per_topic,
        state.message_cache.max_age() == config.cache.max_age,
        state.max_eager_degree == config.max_eager_degree,
        state.replay_cache.ttl().nanos == REPLAY_CACHE_TTL_SECS * crate::time::NANOS_PER_SEC,
{
}

/// A ceiling is what it says, and the usual number where it says nothing.
pub proof fn ceilings_say_what_they_mean(degree: usize)
    ensures
        degree > 0 ==> degree_ceiling(degree) == degree,
        degree_ceiling(0) == MAX_EAGER_DEGREE,
{
}

/// What is noted of a verified message: its sender was heard of and is not cooled, and the topic is
/// in use; nobody moves, and nothing else is touched.
pub proof fn verified_messages_are_noted(
    before: TopicState,
    after: TopicState,
    peer: PeerId,
    now: Instant,
    other: PeerId,
)
    requires
        after.inbound_noted(&before, peer, now),
    ensures
        after.last_activity == now,
        !after.peer_cooling@.dom().contains(peer),
        after.peer_scores@.dom().contains(peer) && after.peer_scores@[peer].last_seen.nanos >= now.nanos,
        before.peer_scores@.dom().contains(peer) ==> after.peer_scores@[peer].messages_delivered
            == before.peer_scores@[peer].messages_delivered,
        other != peer ==> after.peer_cooling@.dom().contains(other) == before.peer_cooling@.dom().contains(other),
        other != peer && before.peer_cooling@.dom().contains(other) ==> after.peer_cooling@[other]
            == before.peer_cooling@[other],
        after.eager_peers == before.eager_peers && after.lazy_peers == before.lazy_peers,
        after.message_cache == before.message_cache && after.pending_ihave == before.pending_ihave,
        after.outstanding_iwants == before.outstanding_iwants && after.replay_cache == before.replay_cache,
{
}

} // verus!
