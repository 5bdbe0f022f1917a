//! The messages of a topic, and what is forgotten of it in time.

use vstd::prelude::*;

use crate::cache::{
    bytes_held, can_be_had, counted, fresh_at, fresh_entries_can_be_had, message_bytes, named_in, room_for, CachedMessage,
};
use crate::collections::IdSet;
use crate::config::{
    secs, MESSAGE_CRYPTO_OVERHEAD_BYTES, MESSAGE_HEADER_OVERHEAD_BYTES, PEER_SCORE_RETENTION_SECS,
};
use crate::digest::{content_hash, digest_of};
use crate::ids::{MessageId, PeerId};
use crate::message::MessageHeader;
use crate::recency::{holds, in_front, value_of, without};
use crate::replay::{after_payload, is_replay, remembered_at};
use crate::score::PeerScore;
use crate::time::{elapsed_between, Duration, Instant};
use crate::topic::TopicState;

verus! {

/// What a peer is to a topic.
#[derive(Clone, Copy, Debug, PartialEq, Eq, Structural)]
pub enum PeerRole {
    RecoveryProbe,
    Cooled,
    RecoveryReady,
    Eager,
    Lazy,
    Excluded,
}

impl PeerRole {
    pub open spec fn name(self) -> Seq<char> {
        match self {
            PeerRole::RecoveryProbe => "recovery_probe"@,
            PeerRole::Cooled => "cooled"@,
            PeerRole::RecoveryReady => "recovery_ready"@,
            PeerRole::Eager => "eager"@,
            PeerRole::Lazy => "lazy"@,
            PeerRole::Excluded => "excluded"@,
        }
    }

    pub fn label(&self) -> (r: &'static str)
        ensures
            r@ == self.name(),
    {
        match self {
            PeerRole::RecoveryProbe => "recovery_probe",
            PeerRole::Cooled => "cooled",
            PeerRole::RecoveryReady => "recovery_ready",
            PeerRole::Eager => "eager",
            PeerRole::Lazy => "lazy",
            PeerRole::Excluded => "excluded",
        }
    }
}

/// The scores whose latest evidence is young enough to be kept.
pub open spec fn retained_scores(scores: Map<PeerId, PeerScore>, now: Instant) -> Map<PeerId, PeerScore> {
    Map::new(
        |p: PeerId| scores.dom().contains(p) && elapsed_between(now, scores[p].latest_evidence()) < secs(
            PEER_SCORE_RETENTION_SECS,
        ).nanos,
        |p: PeerId| scores[p],
    )
}

impl TopicState {
    /// What a peer is at this moment. Cooling goes before the place in the mesh.
    pub open spec fn role_at(&self, peer: PeerId, now: Instant) -> PeerRole {
        let cooling = self.peer_cooling@;
        if cooling.dom().contains(peer) && cooling[peer].recovery_probe_in_flight {
            PeerRole::RecoveryProbe
        } else if cooling.dom().contains(peer) && cooling[peer].cooling(now) {
            PeerRole::Cooled
        } else if cooling.dom().contains(peer) && cooling[peer].expired(now) {
            PeerRole::RecoveryReady
        } else if self.eager_peers@.contains(peer) {
            PeerRole::Eager
        } else if self.lazy_peers@.contains(peer) {
            PeerRole::Lazy
        } else {
            PeerRole::Excluded
        }
    }

    pub fn role_for_peer_at(&self, peer: PeerId, now: Instant) -> (r: PeerRole)
        requires
            self.wf(),
        ensures
            r == self.role_at(peer, now),
    {
        if let Some(state) = self.peer_cooling.get(&peer) {
            if state.recovery_probe_in_flight {
                return PeerRole::RecoveryProbe;
            }
            if let Some(until) = state.suppressed_until {
                if until.nanos > now.nanos {
                    return PeerRole::Cooled;
                }
                return PeerRole::RecoveryReady;
            }
        }
        if self.eager_peers.contains(&peer) {
            PeerRole::Eager
        } else if self.lazy_peers.contains(&peer) {
            PeerRole::Lazy
        } else {
            PeerRole::Excluded
        }
    }

    /// Notes that the topic is in use.
    pub fn touch(&mut self, now: Instant)
        ensures
            *final(self) == (TopicState { last_activity: now, ..*old(self) }),
    {
        self.last_activity = now;
    }

    pub fn has_live_subscribers(&self) -> (r: bool)
        ensures
            r == (self.live_subscribers > 0),
    {
        self.live_subscribers > 0
    }

    /// Whether the topic has been quiet for longer than `ttl` and nobody listens.
    pub fn is_idle(&self, now: Instant, ttl: Duration) -> (r: bool)
        ensures
            r == self.idle(now, ttl),
    {
        now.saturating_duration_since(self.last_activity).nanos > ttl.nanos && !self.has_live_subscribers()
    }

    /// Nothing has changed but what the topic remembers of payloads, and its activity.
    pub open spec fn payload_noted(&self, before: &Self, key: [u8; 32], now: Instant) -> bool {
        &&& self.replay_cache.seen() == after_payload(
            before.replay_cache.seen(),
            key,
            now,
            before.replay_cache.ttl(),
        )
        &&& self.replay_cache.ttl() == before.replay_cache.ttl()
        &&& self.last_activity == now
        &&& self.same_mesh(before)
        &&& self.message_cache == before.message_cache
        &&& self.pending_ihave == before.pending_ihave
        &&& self.outstanding_iwants == before.outstanding_iwants
        &&& self.live_subscribers == before.live_subscribers
        &&& self.peer_scores == before.peer_scores
        &&& self.peer_cooling == before.peer_cooling
    }

    /// Whether a payload has come before, in whatever envelope; a new one is remembered.
    pub fn is_payload_replay(&mut self, payload: &[u8], now: Instant) -> (r: bool)
        requires
            old(self).wf(),
        ensures
            final(self).wf(),
            r == is_replay(
                old(self).replay_cache.seen(),
                digest_of(payload@),
                now,
                old(self).replay_cache.ttl(),
            ),
            final(self).payload_noted(old(self), digest_of(payload@), now),
    {
        let key = content_hash(payload);
        self.is_digest_replay(key, now)
    }

    /// Whether a payload with this hash has come before; a new one is remembered.
    pub fn is_digest_replay(&mut self, key: [u8; 32], now: Instant) -> (r: bool)
        requires
            old(self).wf(),
        ensures
            final(self).wf(),
            r == is_replay(old(self).replay_cache.seen(), key, now, old(self).replay_cache.ttl()),
            final(self).payload_noted(old(self), key, now),
    {
        self.touch(now);
        self.replay_cache.check_at(key, now)
    }

    /// The identifiers of the cached messages, most recently used first.
    pub fn cached_message_ids(&self) -> (r: Vec<MessageId>)
        ensures
            r@ == self.message_cache.order().map_values(|e: (MessageId, Instant)| e.0),
    {
        self.message_cache.ids()
    }

    pub fn has_message(&self, msg_id: &MessageId) -> (r: bool)
        ensures
            r == holds(self.message_cache.order(), *msg_id),
    {
        self.message_cache.contains(msg_id)
    }

    /// The cache after a message was put in, if it is not larger than the whole cache.
    pub open spec fn message_cached(&self, before: &Self, msg_id: MessageId, message: CachedMessage, now: Instant) -> bool {
        let (aged, sized, room) = room_for(
            before.message_cache.order(),
            before.message_cache.messages(),
            msg_id,
            message_bytes(message),
            now,
            before.message_cache,
        );
        let fits = message_bytes(message) <= before.message_cache.max_bytes();
        &&& self.message_cache.same_bounds(&before.message_cache)
        &&& self.message_cache.order() == (if fits { in_front(room, msg_id, now) } else { aged })
        &&& self.message_cache.messages() == (if fits {
            named_in(before.message_cache.messages(), room).insert(msg_id, message)
        } else {
            named_in(before.message_cache.messages(), aged)
        })
        &&& self.message_cache.evicted_by_age() == counted(
            before.message_cache.evicted_by_age(),
            (before.message_cache.order().len() - fresh_at(
                before.message_cache.order(),
                now,
                before.message_cache.max_age(),
            ).len()) as nat,
        )
        &&& self.message_cache.evicted_by_bytes() == (if fits {
            counted(before.message_cache.evicted_by_bytes(), (aged.len() - sized.len()) as nat)
        } else {
            before.message_cache.evicted_by_bytes() as nat
        })
        &&& self.message_cache.evicted_by_count() == (if fits {
            counted(before.message_cache.evicted_by_count(), (sized.len() - room.len()) as nat)
        } else {
            before.message_cache.evicted_by_count() as nat
        })
    }

    /// Puts a message into the cache.
    pub fn cache_message(&mut self, msg_id: MessageId, payload: Vec<u8>, header: MessageHeader, now: Instant)
        requires
            old(self).wf(),
        ensures
            final(self).wf(),
            final(self).message_cached(old(self), msg_id, (CachedMessage { payload, header }), now),
            final(self).last_activity == now,
            final(self).same_mesh(old(self)),
            final(self).pending_ihave == old(self).pending_ihave,
            final(self).outstanding_iwants == old(self).outstanding_iwants,
            final(self).live_subscribers == old(self).live_subscribers,
            final(self).replay_cache == old(self).replay_cache,
            final(self).peer_scores == old(self).peer_scores,
            final(self).peer_cooling == old(self).peer_cooling,
    {
        self.message_cache.insert_at(msg_id, CachedMessage { payload, header }, now);
        self.touch(now);
    }

    /// A cached message, which becomes the most recently used.
    pub fn get_message(&mut self, msg_id: &MessageId, now: Instant) -> (r: Option<CachedMessage>)
        requires
            old(self).wf(),
        ensures
            final(self).wf(),
            ({
                let before = old(self).message_cache;
                let fresh = fresh_at(before.order(), now, before.max_age());
                &&& match r {
                    Some(message) => {
                        &&& holds(fresh, *msg_id)
                        &&& message.payload@ == before.messages()[*msg_id].payload@
                        &&& message.header == before.messages()[*msg_id].header
                    },
                    None => !holds(fresh, *msg_id),
                }
                &&& final(self).message_cache.order() == (if holds(fresh, *msg_id) {
                    in_front(without(fresh, *msg_id), *msg_id, value_of(fresh, *msg_id))
                } else {
                    fresh
                })
                &&& final(self).message_cache.messages() == named_in(before.messages(), fresh)
                &&& final(self).message_cache.same_bounds(&before)
                &&& final(self).message_cache.evicted_by_age() == counted(
                    before.evicted_by_age(),
                    (before.order().len() - fresh.len()) as nat,
                )
                &&& final(self).message_cache.evicted_by_bytes() == before.evicted_by_bytes()
                &&& final(self).message_cache.evicted_by_count() == before.evicted_by_count()
            }),
            final(self).same_mesh(old(self)),
            final(self).pending_ihave == old(self).pending_ihave,
            final(self).outstanding_iwants == old(self).outstanding_iwants,
            final(self).live_subscribers == old(self).live_subscribers,
            final(self).replay_cache == old(self).replay_cache,
            final(self).last_activity == old(self).last_activity,
            final(self).peer_scores == old(self).peer_scores,
            final(self).peer_cooling == old(self).peer_cooling,
    {
        match self.message_cache.get_at(msg_id, now) {
            Some(message) => Some(CachedMessage { payload: copy_bytes(&message.payload), header: message.header }),
            None => None,
        }
    }

    /// What has grown old is forgotten: messages, payload hashes and scores.
    pub open spec fn cleaned_from(&self, before: &Self, now: Instant) -> bool {
        let fresh = fresh_at(before.message_cache.order(), now, before.message_cache.max_age());
        &&& self.message_cache.order() == fresh
        &&& self.message_cache.messages() == named_in(before.message_cache.messages(), fresh)
        &&& self.message_cache.same_bounds(&before.message_cache)
        &&& self.message_cache.evicted_by_age() == counted(
            before.message_cache.evicted_by_age(),
            (before.message_cache.order().len() - fresh.len()) as nat,
        )
        &&& self.message_cache.evicted_by_bytes() == before.message_cache.evicted_by_bytes()
        &&& self.message_cache.evicted_by_count() == before.message_cache.evicted_by_count()
        &&& self.replay_cache.seen() == remembered_at(
            before.replay_cache.seen(),
            now,
            before.replay_cache.ttl(),
        )
        &&& self.replay_cache.ttl() == before.replay_cache.ttl()
        &&& self.peer_scores@ == retained_scores(before.peer_scores@, now)
        &&& self.same_mesh(before)
        &&& self.pending_ihave == before.pending_ihave
        &&& self.outstanding_iwants == before.outstanding_iwants
        &&& self.live_subscribers == before.live_subscribers
        &&& self.last_activity == before.last_activity
        &&& self.peer_cooling == before.peer_cooling
    }

    /// The topic has been quiet for longer than `ttl`, and nobody listens.
    pub open spec fn idle(&self, now: Instant, ttl: Duration) -> bool {
        elapsed_between(now, self.last_activity) > ttl.nanos && self.live_subscribers == 0
    }

    /// Forgets what has grown old: messages, payload hashes and scores.
    pub fn clean_cache(&mut self, now: Instant)
        requires
            old(self).wf(),
        ensures
            final(self).wf(),
            final(self).cleaned_from(old(self), now),
    {
        self.message_cache.prune_expired_at(now);
        self.replay_cache.clean_at(now);
        let peers: Vec<PeerId> = self.peer_scores.keys();
        let ghost scores = self.peer_scores@;
        let ghost aged = *self;
        let mut i: usize = 0;
        while i < peers.len()
            invariant
                i <= peers@.len(),
                peers@.no_duplicates(),
                peers@.to_set() == scores.dom(),
                self.peer_scores.wf(),
                forall|p: PeerId| #[trigger] self.peer_scores@.dom().contains(p) ==> scores.dom().contains(p)
                    && self.peer_scores@[p] == scores[p],
                forall|j: int|
                    0 <= j < i ==> (self.peer_scores@.dom().contains(#[trigger] peers@[j]) == retained_scores(
                        scores,
                        now,
                    ).dom().contains(peers@[j])),
                forall|j: int| i <= j < peers@.len() ==> self.peer_scores@.dom().contains(#[trigger] peers@[j]),
                self.wf(),
                self.same_mesh(&aged),
                self.same_messages(&aged),
                self.peer_cooling == aged.peer_cooling,
            decreases peers@.len() - i,
        {
            assert(peers@.to_set().contains(peers@[i as int]));
            let peer = peers[i];
            let stale = match self.peer_scores.get(&peer) {
                Some(score) => now.saturating_duration_since(score.last_activity()).nanos >= Duration::from_secs(
                    PEER_SCORE_RETENTION_SECS,
                ).nanos,
                None => false,
            };
            if stale {
                self.peer_scores.remove(&peer);
            }
            i = i + 1;
        }
        assert forall|p: PeerId| self.peer_scores@.dom().contains(p) == retained_scores(scores, now).dom().contains(
            p,
        ) by {
            if scores.dom().contains(p) {
                assert(peers@.to_set().contains(p));
                let j = peers@.index_of(p);
                assert(peers@[j] == p);
            }
        }
        assert(self.peer_scores@ =~= retained_scores(scores, now));
    }

    /// Drops the cooling state of every peer that is not connected; lists those peers.
    pub fn clear_disconnected_peer_cooling(&mut self, connected: &IdSet<PeerId>) -> (r: Vec<PeerId>)
        requires
            old(self).wf(),
            connected.wf(),
        ensures
            final(self).wf(),
            r@.no_duplicates(),
            forall|p: PeerId| #[trigger]
                r@.contains(p) <==> old(self).peer_cooling@.dom().contains(p) && !connected@.contains(p),
            final(self).peer_cooling@ == old(self).peer_cooling@.restrict(connected@),
            final(self).same_mesh(old(self)),
            final(self).same_messages(old(self)),
            final(self).peer_scores == old(self).peer_scores,
    {
        let peers: Vec<PeerId> = self.peer_cooling.keys();
        let ghost all = self.peer_cooling@;
        let mut removed: Vec<PeerId> = Vec::new();
        let mut i: usize = 0;
        while i < peers.len()
            invariant
                i <= peers@.len(),
                peers@.no_duplicates(),
                peers@.to_set() == all.dom(),
                all == old(self).peer_cooling@,
                self.wf(),
                connected.wf(),
                forall|p: PeerId| #[trigger] self.peer_cooling@.dom().contains(p) ==> all.dom().contains(p)
                    && self.peer_cooling@[p] == all[p],
                forall|j: int|
                    0 <= j < i ==> self.peer_cooling@.dom().contains(#[trigger] peers@[j]) == connected@.contains(
                        peers@[j],
                    ),
                forall|j: int| i <= j < peers@.len() ==> self.peer_cooling@.dom().contains(#[trigger] peers@[j]),
                removed@.no_duplicates(),
                forall|p: PeerId| #[trigger] removed@.contains(p) ==> peers@.take(i as int).contains(p)
                    && !connected@.contains(p),
                forall|j: int|
                    0 <= j < i && !connected@.contains(#[trigger] peers@[j]) ==> removed@.contains(peers@[j]),
                self.same_mesh(old(self)),
                self.same_messages(old(self)),
                self.peer_scores == old(self).peer_scores,
            decreases peers@.len() - i,
        {
            let peer = peers[i];
            proof {
                assert(peers@.to_set().contains(peer));
                assert(peers@.take(i + 1) =~= peers@.take(i as int).push(peer));
                assert forall|p: PeerId| peers@.take(i as int).contains(p) implies peers@.take(i + 1).contains(p) by {
                    let j = peers@.take(i as int).index_of(p);
                    assert(peers@.take(i + 1)[j] == p);
                }
                assert(peers@.take(i + 1)[i as int] == peer);
                assert(!peers@.take(i as int).contains(peer));
            }
            if !connected.contains(&peer) {
                self.peer_cooling.remove(&peer);
                let ghost listed = removed@;
                assert(!listed.contains(peer));
                removed.push(peer);
                proof {
                    assert(removed@[listed.len() as int] == peer);
                    assert forall|p: PeerId| #[trigger] removed@.contains(p) implies listed.contains(p) || p == peer by {
                        let j = removed@.index_of(p);
                        if j < listed.len() {
                            assert(listed[j] == p);
                        }
                    }
                    assert forall|p: PeerId| listed.contains(p) implies removed@.contains(p) by {
                        assert(removed@[listed.index_of(p)] == p);
                    }
                }
            }
            i = i + 1;
        }
        proof {
            assert(peers@.take(peers@.len() as int) =~= peers@);
            assert forall|p: PeerId| #[trigger] all.dom().contains(p) implies peers@.contains(p) && peers@[peers@.index_of(
                p,
            )] == p by {
                assert(peers@.to_set().contains(p));
            }
            assert forall|p: PeerId| peers@.contains(p) implies all.dom().contains(p) by {
                assert(peers@.to_set().contains(p));
            }
            assert(self.peer_cooling@ =~= all.restrict(connected@));
        }
        removed
    }
}

/// The same bytes again.
pub(crate) fn copy_bytes(bytes: &Vec<u8>) -> (r: Vec<u8>)
    ensures
        r@ == bytes@,
{
    let r = bytes.clone();
    assert(r@ =~= bytes@);
    r
}

/// A message that was put into the cache can be had, with its payload and its header, and is the
/// most recently used; one that is larger than the whole cache is not there.
pub proof fn cached_messages_can_be_had(
    before: TopicState,
    after: TopicState,
    msg_id: MessageId,
    message: CachedMessage,
    now: Instant,
    later: Instant,
)
    requires
        before.wf(),
        after.message_cached(&before, msg_id, message, now),
    ensures
        ({
            let size = message.payload@.len() + MESSAGE_HEADER_OVERHEAD_BYTES + MESSAGE_CRYPTO_OVERHEAD_BYTES;
            let cache = after.message_cache;
            &&& size <= before.message_cache.max_bytes() ==> {
                &&& cache.messages().dom().contains(msg_id)
                &&& cache.messages()[msg_id].payload@ == message.payload@
                &&& cache.messages()[msg_id].header == message.header
                &&& cache.order().len() > 0 && cache.order()[0] == (msg_id, now)
                &&& later.nanos >= now.nanos && later.nanos - now.nanos < before.message_cache.max_age().nanos
                    ==> can_be_had(cache, msg_id, later)
            }
            &&& size > before.message_cache.max_bytes() && size <= usize::MAX ==> !cache.messages().dom().contains(
                msg_id,
            )
        }),
{
    let cache = before.message_cache;
    fresh_entries_can_be_had(cache, now);
    let fresh = fresh_at(cache.order(), now, cache.max_age());
    crate::cache::lemma_without_holds(fresh, msg_id);
    if message.payload@.len() + MESSAGE_HEADER_OVERHEAD_BYTES + MESSAGE_CRYPTO_OVERHEAD_BYTES <= cache.max_bytes() {
        assert(after.message_cache.order()[0] == (msg_id, now));
    }
}

/// A message that is put into the cache replaces no other: what else is cached then was so before,
/// with the same content and not too old; and where there is room, all of that stays.
pub proof fn caching_leaves_other_messages_alone(
    before: TopicState,
    after: TopicState,
    msg_id: MessageId,
    message: CachedMessage,
    now: Instant,
    other: MessageId,
)
    requires
        before.wf(),
        after.message_cached(&before, msg_id, message, now),
        other != msg_id,
    ensures
        after.message_cache.messages().dom().contains(other) ==> can_be_had(before.message_cache, other, now)
            && after.message_cache.messages()[other] == before.message_cache.messages()[other],
        ({
            let cache = before.message_cache;
            let size = message.payload@.len() + MESSAGE_HEADER_OVERHEAD_BYTES + MESSAGE_CRYPTO_OVERHEAD_BYTES;
            &&& can_be_had(cache, other, now) && cache.order().len() < cache.max_count() && bytes_held(
                cache.order(),
                cache.messages(),
            ) + size <= cache.max_bytes() ==> after.message_cache.messages().dom().contains(other)
        }),
{
    let cache = before.message_cache;
    let bytes = message_bytes(message);
    let fresh = fresh_at(cache.order(), now, cache.max_age());
    fresh_entries_can_be_had(cache, now);
    crate::cache::lemma_without_holds(fresh, msg_id);
    crate::cache::lemma_fresh_bytes(cache, msg_id, now);
    if bytes <= cache.max_bytes() {
        crate::cache::room_is_made_at_the_cost_of_the_least_recent(cache, msg_id, bytes, now);
        let (aged, sized, room) = room_for(cache.order(), cache.messages(), msg_id, bytes, now, cache);
        crate::cache::lemma_take_holds(aged, room.len() as int);
        if cache.order().len() < cache.max_count() && bytes_held(cache.order(), cache.messages()) + bytes
            <= cache.max_bytes() {
            assert(room == aged);
        }
    }
}

/// What is forgotten with time, in numbers: a message at the greatest age, a payload older than it
/// counts, and a score whose latest evidence is as old as scores are kept; and nothing else.
pub proof fn only_what_has_grown_old_is_forgotten(
    before: TopicState,
    after: TopicState,
    now: Instant,
    id: MessageId,
    hash: ([u8; 32], Instant),
    peer: PeerId,
)
    requires
        before.wf(),
        after.cleaned_from(&before, now),
    ensures
        after.message_cache.messages().dom().contains(id) <==> can_be_had(before.message_cache, id, now),
        can_be_had(before.message_cache, id, now) ==> after.message_cache.messages()[id]
            == before.message_cache.messages()[id],
        after.replay_cache.seen().contains(hash) <==> before.replay_cache.seen().contains(hash) && now.nanos
            <= hash.1.nanos + crate::config::REPLAY_CACHE_TTL_SECS * crate::time::NANOS_PER_SEC,
        after.peer_scores@.dom().contains(peer) <==> before.peer_scores@.dom().contains(peer) && now.nanos
            < before.peer_scores@[peer].latest_evidence().nanos + PEER_SCORE_RETENTION_SECS
            * crate::time::NANOS_PER_SEC,
        after.peer_scores@.dom().contains(peer) ==> after.peer_scores@[peer] == before.peer_scores@[peer],
        after.eager_peers == before.eager_peers && after.lazy_peers == before.lazy_peers,
        after.peer_cooling == before.peer_cooling,
        after.pending_ihave == before.pending_ihave && after.outstanding_iwants == before.outstanding_iwants,
{
    fresh_entries_can_be_had(before.message_cache, now);
    before.replay_cache.lemma_distinct();
    crate::recency::lemma_filter_members(
        before.replay_cache.seen(),
        |e: ([u8; 32], Instant)| elapsed_between(now, e.1) <= before.replay_cache.ttl().nanos,
    );
}

/// A topic is idle where nobody listens and it has been quiet for longer than it may.
pub proof fn idle_topics_are_quiet_and_unheard(state: TopicState, now: Instant, ttl: Duration)
    ensures
        state.idle(now, ttl) <==> state.live_subscribers == 0 && now.nanos > state.last_activity.nanos + ttl.nanos,
{
}

/// What a peer is said to be: its probe goes before its cooldown, and that before its place in the
/// mesh.
pub proof fn roles_go_by_cooling_first(state: TopicState, peer: PeerId, now: Instant)
    ensures
        ({
            let cooling = state.peer_cooling@;
            let known = cooling.dom().contains(peer);
            let probing = known && cooling[peer].recovery_probe_in_flight;
            let until = cooling[peer].suppressed_until;
            let held = known && until is Some;
            &&& state.role_at(peer, now) == PeerRole::RecoveryProbe <==> probing
            &&& state.role_at(peer, now) == PeerRole::Cooled <==> !probing && held && until->0.nanos > now.nanos
            &&& state.role_at(peer, now) == PeerRole::RecoveryReady <==> !probing && held && until->0.nanos <= now.nanos
            &&& state.role_at(peer, now) == PeerRole::Eager <==> !probing && !held && state.eager_peers@.contains(peer)
            &&& state.role_at(peer, now) == PeerRole::Lazy <==> !probing && !held && !state.eager_peers@.contains(peer)
                && state.lazy_peers@.contains(peer)
        }),
{
}

/// Every message that leaves the cache to make room is counted once, by the bound that it fell to:
/// what was held, and what was put in, is still held or was counted, unless it was replaced.
pub proof fn evictions_are_counted(
    before: TopicState,
    after: TopicState,
    msg_id: MessageId,
    message: CachedMessage,
    now: Instant,
)
    requires
        before.wf(),
        after.message_cached(&before, msg_id, message, now),
        message.payload@.len() + MESSAGE_HEADER_OVERHEAD_BYTES + MESSAGE_CRYPTO_OVERHEAD_BYTES <= usize::MAX,
        after.message_cache.evicted_by_age() < u64::MAX,
        after.message_cache.evicted_by_bytes() < u64::MAX,
        after.message_cache.evicted_by_count() < u64::MAX,
    ensures
        ({
            let cache = before.message_cache;
            let size = message.payload@.len() + MESSAGE_HEADER_OVERHEAD_BYTES + MESSAGE_CRYPTO_OVERHEAD_BYTES;
            let fits = size <= cache.max_bytes();
            let by_age = after.message_cache.evicted_by_age() - cache.evicted_by_age();
            let by_bytes = after.message_cache.evicted_by_bytes() - cache.evicted_by_bytes();
            let by_count = after.message_cache.evicted_by_count() - cache.evicted_by_count();
            let replaced: int = if can_be_had(cache, msg_id, now) { 1 } else { 0 };
            let added: int = if fits { 1 } else { 0 };
            &&& cache.order().len() + added == after.message_cache.order().len() + replaced + by_age + by_bytes + by_count
            &&& by_age >= 0 && by_bytes >= 0 && by_count >= 0
            &&& bytes_held(cache.order(), cache.messages()) + size <= cache.max_bytes() ==> by_bytes == 0
            &&& cache.order().len() < cache.max_count() ==> by_count == 0
            &&& by_count > 0 ==> after.message_cache.order().len() == cache.max_count()
            &&& !fits ==> by_bytes == 0 && by_count == 0
        }),
{
    let cache = before.message_cache;
    let bytes = message_bytes(message);
    let fresh = fresh_at(cache.order(), now, cache.max_age());
    fresh_entries_can_be_had(cache, now);
    crate::cache::lemma_fresh_bytes(cache, msg_id, now);
    cache.order().lemma_filter_len(|e: (MessageId, Instant)| elapsed_between(now, e.1) < cache.max_age().nanos);
    if holds(fresh, msg_id) {
        let i = choose|i: int| 0 <= i < fresh.len() && (#[trigger] fresh[i]).0 == msg_id;
        crate::recency::lemma_without_at(fresh, i);
    } else {
        crate::recency::lemma_without_absent(fresh, msg_id);
    }
    if bytes <= cache.max_bytes() {
        crate::cache::room_is_made_at_the_cost_of_the_least_recent(cache, msg_id, bytes, now);
    }
}

/// Every message that is forgotten with time is counted as having grown old, and by no other bound.
pub proof fn forgotten_messages_are_counted(before: TopicState, after: TopicState, now: Instant)
    requires
        before.wf(),
        after.cleaned_from(&before, now),
        after.message_cache.evicted_by_age() < u64::MAX,
    ensures
        before.message_cache.order().len() + before.message_cache.evicted_by_age()
            == after.message_cache.order().len() + after.message_cache.evicted_by_age(),
        after.message_cache.evicted_by_bytes() == before.message_cache.evicted_by_bytes(),
        after.message_cache.evicted_by_count() == before.message_cache.evicted_by_count(),
{
    let cache = before.message_cache;
    cache.order().lemma_filter_len(|e: (MessageId, Instant)| elapsed_between(now, e.1) < cache.max_age().nanos);
}

} // verus!
