//! What holds of a topic at all times: no peer has two roles, the mesh keeps to its size, and no
//! suppressed peer is eager until a recovery probe has let it back in.

use vstd::prelude::*;

use crate::cooling::{PeerHealth, PeerRecoveryProbeEvent, PeerSendAttempt, ProbeIds};
use crate::ids::{MessageId, PeerId};
use crate::inbound::{EagerOutcome, TopicConfig};
use crate::mesh::{maintenance_bounds_the_degree, maintenance_keeps_the_peers, MeshScores};
use crate::message::MessageHeader;
use crate::time::{Duration, Instant};
use crate::timing::AdaptiveCoolingConfig;
use crate::topic::TopicState;

verus! {

impl TopicState {
    /// No peer has two roles, there are no more eager peers than the most, none of them is
    /// suppressed, and every cooling state makes sense.
    pub open spec fn sound(&self) -> bool {
        &&& self.roles_disjoint()
        &&& self.eager_peers@.len() <= self.max_eager_degree
        &&& forall|p: PeerId, now: Instant|
            self.eager_peers@.contains(p) ==> !#[trigger] self.peer_suppressed(p, now)
        &&& forall|p: PeerId| #[trigger]
            self.peer_cooling@.dom().contains(p) ==> self.peer_cooling@[p].coherent()
    }
}

/// A new topic is sound.
pub proof fn new_topics_are_sound(state: TopicState, config: TopicConfig, now: Instant)
    requires
        state.started(config, now),
    ensures
        state.sound(),
{
}

/// Nothing that leaves the peers of a topic alone makes it unsound.
pub proof fn untouched_peers_stay_sound(before: TopicState, after: TopicState)
    requires
        before.sound(),
        after.same_mesh(&before),
        after.peer_cooling@ == before.peer_cooling@,
    ensures
        after.sound(),
{
    assert forall|p: PeerId, now: Instant| after.eager_peers@.contains(p) implies !#[trigger] after.peer_suppressed(
        p,
        now,
    ) by {
        assert(!before.peer_suppressed(p, now));
    }
}

/// Asking for a send keeps a topic sound.
pub proof fn claims_keep_topics_sound(
    before: TopicState,
    after: TopicState,
    peer: PeerId,
    now: Instant,
    ids: ProbeIds,
    ids_after: ProbeIds,
    r: Option<(PeerSendAttempt, Option<PeerRecoveryProbeEvent>)>,
)
    requires
        before.sound(),
        after.send_claimed(&before, peer, now, ids, ids_after, r),
    ensures
        after.sound(),
{
    assert forall|p: PeerId, at: Instant| after.eager_peers@.contains(p) implies !#[trigger] after.peer_suppressed(
        p,
        at,
    ) by {
        assert(!before.peer_suppressed(p, at));
        assert(!before.peer_suppressed(p, now));
    }
}

/// A successful send keeps a topic sound.
pub proof fn successes_keep_topics_sound(
    before: TopicState,
    after: TopicState,
    attempt: PeerSendAttempt,
    now: Instant,
    config: AdaptiveCoolingConfig,
    decayed_above: Duration,
)
    requires
        before.sound(),
        after.after_success(&before, attempt, now, config, decayed_above),
    ensures
        after.sound(),
{
    assert forall|p: PeerId, at: Instant| after.eager_peers@.contains(p) implies !#[trigger] after.peer_suppressed(
        p,
        at,
    ) by {
        assert(!before.peer_suppressed(p, at));
    }
}

/// A send that timed out keeps a topic sound, and so does a queue of critical sends that is full:
/// whoever is suppressed for it is no longer eager.
pub proof fn timeouts_keep_topics_sound(
    before: TopicState,
    after: TopicState,
    attempt: PeerSendAttempt,
    now: Instant,
    config: AdaptiveCoolingConfig,
    health: Option<PeerHealth>,
)
    requires
        before.wf(),
        before.sound(),
        after.after_timeout(&before, attempt, now, before.timeout_effect(attempt, now, Some(config), health))
            || after.after_timeout(&before, attempt, now, before.timeout_effect(attempt, now, None, None))
            || after.after_overflow(&before, attempt, now, before.overflow_effect(attempt, now, health, config)),
    ensures
        after.sound(),
{
    before.eager_peers.lemma_listed();
    assert forall|p: PeerId, at: Instant| after.eager_peers@.contains(p) implies !#[trigger] after.peer_suppressed(
        p,
        at,
    ) by {
        assert(!before.peer_suppressed(p, at));
    }
}

/// Maintenance keeps a topic sound, and makes it so where it only has too many eager peers.
pub proof fn maintenance_keeps_topics_sound(
    before: TopicState,
    after: TopicState,
    now: Instant,
    scores: MeshScores,
    pruned: usize,
    grafted: usize,
)
    requires
        before.wf(),
        (TopicState { max_eager_degree: usize::MAX, ..before }).sound(),
        after.maintained_from(&before, now, scores, pruned, grafted),
    ensures
        after.sound(),
{
    maintenance_bounds_the_degree(before, after, now, scores, pruned, grafted);
    maintenance_keeps_the_peers(before, after, now, scores, pruned, grafted);
    let unbounded = TopicState { max_eager_degree: usize::MAX, ..before };
    let (shed, filled, swapped) = choose|shed: TopicState, filled: TopicState, swapped: usize|
        {
            &&& #[trigger] shed.shed_from(&before, scores)
            &&& #[trigger] filled.filled_from(&shed, now, scores)
            &&& #[trigger] after.replaced_from(&filled, now, scores, swapped)
        };
    assert forall|p: PeerId, at: Instant| after.eager_peers@.contains(p) implies !#[trigger] after.peer_suppressed(
        p,
        at,
    ) by {
        assert(!unbounded.peer_suppressed(p, at) || !before.eager_peers@.contains(p));
        assert(shed.eager_peers@.contains(p) ==> before.eager_peers@.contains(p));
        assert(filled.eager_peers@.contains(p) ==> shed.eager_peers@.contains(p) || shed.graftable(now).contains(p));
        assert(filled.eager_peers@.contains(p) || filled.graftable(now).contains(p));
    }
    assert forall|p: PeerId| #[trigger] after.peer_cooling@.dom().contains(p) implies after.peer_cooling@[p].coherent() by {
        assert(unbounded.peer_cooling@.dom().contains(p));
    }
}

/// Moving a peer by hand keeps a topic sound.
pub proof fn moves_keep_topics_sound(before: TopicState, after: TopicState, peer: PeerId, now: Instant)
    requires
        before.wf(),
        before.sound(),
        after.only_roles_changed(&before),
        ({
            ||| after.demoted(&before, peer)
            ||| {
                &&& !before.peer_suppressed(peer, now)
                &&& before.eager_peers@.len() < before.max_eager_degree
                &&& after.eager_peers@ == before.eager_peers@.insert(peer)
                &&& after.lazy_peers@ == before.lazy_peers@.remove(peer)
            }
            ||| {
                &&& !before.eager_peers@.contains(peer)
                &&& after.eager_peers == before.eager_peers
                &&& after.lazy_peers@ == before.lazy_peers@.insert(peer)
            }
        }),
    ensures
        after.sound(),
{
    before.eager_peers.lemma_listed();
    assert forall|p: PeerId, at: Instant| after.eager_peers@.contains(p) implies !#[trigger] after.peer_suppressed(
        p,
        at,
    ) by {
        assert(before.eager_peers@.contains(p) ==> !before.peer_suppressed(p, at));
    }
}

/// Taking a message in keeps a topic sound.
pub proof fn messages_keep_topics_sound(
    before: TopicState,
    after: TopicState,
    from: PeerId,
    header: MessageHeader,
    payload: Option<Seq<u8>>,
    key: [u8; 32],
    now: Instant,
    outcome: EagerOutcome,
)
    requires
        before.wf(),
        before.sound(),
        after.eager_received(&before, from, header, payload, key, now, outcome) || after.inbound_noted(
            &before,
            from,
            now,
        ),
    ensures
        after.sound(),
{
    before.eager_peers.lemma_listed();
    assert forall|p: PeerId, at: Instant| after.eager_peers@.contains(p) implies !#[trigger] after.peer_suppressed(
        p,
        at,
    ) by {
        assert(!before.peer_suppressed(p, at));
    }
}

/// Whoever joins, leaves or asks for messages, a topic stays sound.
pub proof fn membership_keeps_topics_sound(
    before: TopicState,
    after: TopicState,
    from: PeerId,
    ids: Seq<MessageId>,
    peers: Seq<PeerId>,
    now: Instant,
    scores: MeshScores,
    pruned: usize,
    grafted: usize,
)
    requires
        before.wf(),
        before.sound(),
        ({
            ||| after.joined_from(&before, peers, now, scores, pruned, grafted)
            ||| after.refreshed_from(&before, peers.to_set(), now, scores, pruned, grafted)
            ||| after.request_answered(&before, from, ids, now, scores, pruned, grafted)
            ||| after.retained_from(&before, peers.to_set())
        }),
    ensures
        after.sound(),
{
    before.eager_peers.lemma_listed();
    if after.retained_from(&before, peers.to_set()) {
        losses_keep_topics_sound(before, after);
    } else if after.joined_from(&before, peers, now, scores, pruned, grafted) {
        let joined = choose|joined: TopicState|
            {
                &&& joined.wf()
                &&& #[trigger] joined.peers_added_from(&before, peers)
                &&& after.maintained_from(&joined, now, scores, pruned, grafted)
            };
        losses_keep_topics_sound(before, joined);
        lemma_unbounded(joined);
        maintenance_keeps_topics_sound(joined, after, now, scores, pruned, grafted);
    } else if after.refreshed_from(&before, peers.to_set(), now, scores, pruned, grafted) {
        let set = choose|set: TopicState|
            {
                &&& set.wf()
                &&& #[trigger] set.peers_set_from(&before, peers.to_set())
                &&& after.maintained_from(&set, now, scores, pruned, grafted)
            };
        losses_keep_topics_sound(before, set);
        lemma_unbounded(set);
        maintenance_keeps_topics_sound(set, after, now, scores, pruned, grafted);
    } else {
        let served = choose|served: TopicState|
            {
                &&& served.wf()
                &&& #[trigger] served.request_served(&before, from, ids, now)
                &&& after.maintained_from(&served, now, scores, pruned, grafted)
            };
        losses_keep_topics_sound(before, served);
        lemma_unbounded(served);
        maintenance_keeps_topics_sound(served, after, now, scores, pruned, grafted);
    }
}

/// A topic that only loses eager peers and cooling states stays sound, if its roles stay apart.
pub proof fn losses_keep_topics_sound(before: TopicState, after: TopicState)
    requires
        before.sound(),
        before.eager_peers@.finite(),
        after.eager_peers@.subset_of(before.eager_peers@),
        after.roles_disjoint(),
        after.max_eager_degree == before.max_eager_degree,
        forall|p: PeerId| #[trigger]
            after.peer_cooling@.dom().contains(p) ==> before.peer_cooling@.dom().contains(p)
                && before.peer_cooling@[p] == after.peer_cooling@[p],
    ensures
        after.sound(),
{
    vstd::set_lib::lemma_len_subset(after.eager_peers@, before.eager_peers@);
    assert forall|p: PeerId, at: Instant| after.eager_peers@.contains(p) implies !#[trigger] after.peer_suppressed(
        p,
        at,
    ) by {
        assert(before.eager_peers@.contains(p));
        assert(!before.peer_suppressed(p, at));
    }
}

proof fn lemma_unbounded(state: TopicState)
    requires
        state.sound(),
    ensures
        (TopicState { max_eager_degree: usize::MAX, ..state }).sound(),
{
    let unbounded = TopicState { max_eager_degree: usize::MAX, ..state };
    assert forall|p: PeerId, at: Instant| unbounded.eager_peers@.contains(p) implies !#[trigger] unbounded.peer_suppressed(
        p,
        at,
    ) by {
        assert(!state.peer_suppressed(p, at));
    }
}

} // verus!
