//! All topics of a node: sends, results and upkeep across them.

use vstd::prelude::*;

use crate::budget::PeerOutboundBudgets;
use crate::claims::{
    bare_round, claim_round, claim_send_attempts_without_topic, claim_topic_send_attempts_for_state, permits_match,
    BareWorld, ClaimOutcome, SendContext, SendWorld,
};
use crate::collections::{IdMap, IdSet};
use crate::config::{SUPPRESSION_CLEANUP_MAX_INTERVAL_MS, SUPPRESSION_CLEANUP_MIN_INTERVAL_MS};
use crate::cooling::{PeerSendAttempt, ProbeIds};
use crate::ids::{PeerId, TopicId};
use crate::results::{
    forget_recovery_probes, probed_peers, record_round_trips, record_topic_send_attempt_results_for_state,
    samples_after, success_round, timeout_round, PeerSendCompletion, ResultWorld,
};
use crate::stats::{as_count, duration_millis_u64, PubSubStageStats, SuppressedPeerKey};
use crate::time::{Duration, Instant, NANOS_PER_MILLI};
use crate::timing::PerPeerRttTracker;
use crate::topic::TopicState;

verus! {

/// The topics are well-formed.
pub open spec fn topics_wf(topics: IdMap<TopicId, TopicState>) -> bool {
    &&& topics.wf()
    &&& forall|t: TopicId| #[trigger] topics@.dom().contains(t) ==> topics@[t].wf()
}

/// No topic but one has changed.
pub open spec fn only_topic_changed(
    after: Map<TopicId, TopicState>,
    before: Map<TopicId, TopicState>,
    topic: TopicId,
) -> bool {
    &&& after.dom() == before.dom()
    &&& forall|t: TopicId| t != topic && #[trigger] before.dom().contains(t) ==> after[t] == before[t]
}

/// Nothing has come of the claims yet.
pub open spec fn blank(out: ClaimOutcome) -> bool {
    &&& out.attempts@.len() == 0
    &&& out.permits@.len() == 0
    &&& out.indirect_probes@.len() == 0
    &&& out.critical_hard_errors@.len() == 0
    &&& out.critical_cooling@.len() == 0
}

/// Asks for a send to each of some peers on the topic of the context. Where the node has no such
/// topic there is no cooling either.
pub fn claim_topic_send_attempts(
    topics: &mut IdMap<TopicId, TopicState>,
    ctx: &SendContext,
    budgets: &mut PeerOutboundBudgets,
    stats: &mut PubSubStageStats,
    ids: &mut ProbeIds,
    peers: &Vec<PeerId>,
    now: Instant,
) -> (out: ClaimOutcome)
    requires
        topics_wf(*old(topics)),
        ctx.wf(),
        old(budgets).wf(),
        old(stats).wf(),
        now.can_advance(ctx.cooling_config.max),
    ensures
        topics_wf(*final(topics)),
        final(budgets).wf(),
        final(stats).wf(),
        permits_match(out),
        only_topic_changed(final(topics)@, old(topics)@, ctx.topic),
        old(topics)@.dom().contains(ctx.topic) ==> exists|start: ClaimOutcome|
            {
                &&& blank(start)
                &&& #[trigger] claim_round(
                    *ctx,
                    (SendWorld {
                        state: old(topics)@[ctx.topic],
                        budgets: *old(budgets),
                        stats: *old(stats),
                        ids: *old(ids),
                        out: start,
                    }),
                    (SendWorld {
                        state: final(topics)@[ctx.topic],
                        budgets: *final(budgets),
                        stats: *final(stats),
                        ids: *final(ids),
                        out,
                    }),
                    peers@,
                    now,
                )
            },
        !old(topics)@.dom().contains(ctx.topic) ==> {
            &&& *final(ids) == *old(ids)
            &&& exists|start: ClaimOutcome|
                {
                    &&& blank(start)
                    &&& #[trigger] bare_round(
                        *ctx,
                        (BareWorld { budgets: *old(budgets), stats: *old(stats), out: start }),
                        (BareWorld { budgets: *final(budgets), stats: *final(stats), out }),
                        peers@,
                        now,
                    )
                }
        },
{
    match topics.get_mut(&ctx.topic) {
        Some(state) => {
            let out = claim_topic_send_attempts_for_state(ctx, state, budgets, stats, ids, peers, now);
            assert(topics@.dom() =~= old(topics)@.dom());
            out
        },
        None => claim_send_attempts_without_topic(ctx, budgets, stats, peers, now),
    }
}

/// Takes in the outcomes of a round of sends; lists the peers that the membership layer should look
/// at. Where the topic is gone, its recovery probes are no longer reported.
pub fn record_topic_send_attempt_results(
    topics: &mut IdMap<TopicId, TopicState>,
    ctx: &SendContext,
    stats: &mut PubSubStageStats,
    tracker: &mut PerPeerRttTracker,
    sent: &Vec<PeerSendCompletion>,
    decayed_above: &Vec<Duration>,
    timed_out: &Vec<PeerSendAttempt>,
    now: Instant,
) -> (r: Vec<PeerId>)
    requires
        topics_wf(*old(topics)),
        ctx.wf(),
        old(stats).wf(),
        old(tracker).wf(),
        now.can_advance(ctx.cooling_config.max),
        decayed_above@.len() == sent@.len(),
    ensures
        topics_wf(*final(topics)),
        final(stats).wf(),
        final(tracker).wf(),
        only_topic_changed(final(topics)@, old(topics)@, ctx.topic),
        forall|peer: PeerId| #[trigger]
            final(tracker).samples_of(peer) == samples_after(old(tracker).samples_of(peer), sent@, peer),
        old(topics)@.dom().contains(ctx.topic) ==> exists|start: Vec<PeerId>, middle: ResultWorld|
            {
                &&& start@.len() == 0
                &&& #[trigger] success_round(
                    *ctx,
                    (ResultWorld {
                        state: old(topics)@[ctx.topic],
                        stats: *old(stats),
                        indirect_probes: start,
                    }),
                    middle,
                    sent@,
                    decayed_above@,
                    now,
                )
                &&& timeout_round(
                    *ctx,
                    middle,
                    (ResultWorld { state: final(topics)@[ctx.topic], stats: *final(stats), indirect_probes: r }),
                    timed_out@,
                    now,
                )
            },
        !old(topics)@.dom().contains(ctx.topic) ==> {
            &&& r@.len() == 0
            &&& final(stats).only_suppressions_changed(old(stats))
            &&& final(stats).suppressed_peers@ == old(stats).suppressed_peers@.restrict(
                Set::new(
                    |k: SuppressedPeerKey|
                        k.topic != ctx.topic || !(probed_peers(
                            sent@.map_values(|c: PeerSendCompletion| c.attempt),
                        ).contains(k.peer) || probed_peers(timed_out@).contains(k.peer)),
                ),
            )
        },
{
    record_round_trips(tracker, sent);
    match topics.get_mut(&ctx.topic) {
        Some(state) => {
            let r = record_topic_send_attempt_results_for_state(
                ctx,
                state,
                stats,
                sent,
                decayed_above,
                timed_out,
                now,
            );
            assert(topics@.dom() =~= old(topics)@.dom());
            r
        },
        None => {
            let mut attempts: Vec<PeerSendAttempt> = Vec::new();
            let mut i: usize = 0;
            while i < sent.len()
                invariant
                    i <= sent@.len(),
                    attempts@.len() == i,
                    forall|j: int| 0 <= j < i ==> #[trigger] attempts@[j] == sent@[j].attempt,
                decreases sent@.len() - i,
            {
                attempts.push(sent[i].attempt);
                i = i + 1;
            }
            assert(attempts@ =~= sent@.map_values(|c: PeerSendCompletion| c.attempt));
            let ghost all = stats.suppressed_peers@;
            forget_recovery_probes(stats, ctx.topic, &attempts);
            forget_recovery_probes(stats, ctx.topic, timed_out);
            assert(stats.suppressed_peers@ =~= all.restrict(
                Set::new(
                    |k: SuppressedPeerKey|
                        k.topic != ctx.topic || !(probed_peers(
                            sent@.map_values(|c: PeerSendCompletion| c.attempt),
                        ).contains(k.peer) || probed_peers(timed_out@).contains(k.peer)),
                ),
            ));
            Vec::new()
        },
    }
}

/// Forgets what has grown old in every topic, and drops the idle topics; lists those.
pub fn clean_and_reap_topic_ids(topics: &mut IdMap<TopicId, TopicState>, ttl: Duration, now: Instant) -> (r: Vec<
    TopicId,
>)
    requires
        topics_wf(*old(topics)),
    ensures
        topics_wf(*final(topics)),
        r@.no_duplicates(),
        forall|t: TopicId| #[trigger]
            r@.contains(t) <==> old(topics)@.dom().contains(t) && old(topics)@[t].idle(now, ttl),
        forall|t: TopicId| #[trigger]
            final(topics)@.dom().contains(t) <==> old(topics)@.dom().contains(t) && !old(topics)@[t].idle(now, ttl),
        forall|t: TopicId| #[trigger]
            final(topics)@.dom().contains(t) ==> final(topics)@[t].cleaned_from(&old(topics)@[t], now),
{
    let keys: Vec<TopicId> = topics.keys();
    let ghost all = topics@;
    let mut idle: Vec<TopicId> = Vec::new();
    let mut i: usize = 0;
    while i < keys.len()
        invariant
            i <= keys@.len(),
            keys@.no_duplicates(),
            keys@.to_set() == all.dom(),
            all == old(topics)@,
            topics_wf(*topics),
            forall|t: TopicId| #[trigger] topics@.dom().contains(t) ==> all.dom().contains(t),
            forall|j: int| i <= j < keys@.len() ==> topics@.dom().contains(#[trigger] keys@[j])
                && topics@[keys@[j]] == all[keys@[j]],
            forall|j: int|
                0 <= j < i ==> topics@.dom().contains(#[trigger] keys@[j]) == !all[keys@[j]].idle(now, ttl),
            forall|j: int|
                0 <= j < i && topics@.dom().contains(#[trigger] keys@[j]) ==> topics@[keys@[j]].cleaned_from(
                    &all[keys@[j]],
                    now,
                ),
            idle@.no_duplicates(),
            forall|t: TopicId| #[trigger] idle@.contains(t) ==> keys@.take(i as int).contains(t) && all[t].idle(now, ttl),
            forall|j: int| 0 <= j < i && all[#[trigger] keys@[j]].idle(now, ttl) ==> idle@.contains(keys@[j]),
        decreases keys@.len() - i,
    {
        let key = keys[i];
        proof {
            assert(keys@.to_set().contains(key));
            assert(keys@.take(i + 1) =~= keys@.take(i as int).push(key));
            assert(keys@.take(i + 1)[i as int] == key);
            assert(!keys@.take(i as int).contains(key));
            assert forall|t: TopicId| keys@.take(i as int).contains(t) implies keys@.take(i + 1).contains(t) by {
                let j = keys@.take(i as int).index_of(t);
                assert(keys@.take(i + 1)[j] == t);
            }
        }
        let mut drop_it = false;
        if let Some(state) = topics.get_mut(&key) {
            state.clean_cache(now);
            drop_it = state.is_idle(now, ttl);
        }
        if drop_it {
            let ghost listed = idle@;
            assert(!listed.contains(key));
            topics.remove(&key);
            idle.push(key);
            proof {
                assert(idle@[listed.len() as int] == key);
                assert forall|t: TopicId| #[trigger] idle@.contains(t) implies listed.contains(t) || t == key by {
                    let j = idle@.index_of(t);
                    if j < listed.len() {
                        assert(listed[j] == t);
                    }
                }
                assert forall|t: TopicId| listed.contains(t) implies idle@.contains(t) by {
                    assert(idle@[listed.index_of(t)] == t);
                }
            }
        }
        i = i + 1;
    }
    proof {
        assert(keys@.take(keys@.len() as int) =~= keys@);
        assert forall|t: TopicId| #[trigger] all.dom().contains(t) implies keys@.contains(t) && keys@[keys@.index_of(t)]
            == t by {
            assert(keys@.to_set().contains(t));
        }
        assert forall|t: TopicId| keys@.contains(t) implies #[trigger] all.dom().contains(t) by {
            assert(keys@.to_set().contains(t));
        }
    }
    idle
}

/// The peer's cooldown on a topic has run out, and no probe is under way.
pub open spec fn overdue(topics: Map<TopicId, TopicState>, topic: TopicId, peer: PeerId, now: Instant) -> bool {
    &&& topics.dom().contains(topic)
    &&& topics[topic].peer_cooling@.dom().contains(peer)
    &&& topics[topic].peer_cooling@[peer].expired(now)
    &&& !topics[topic].peer_cooling@[peer].recovery_probe_in_flight
}

impl TopicState {
    /// The peers whose cooldown has run out without a probe under way.
    pub open spec fn overdue_peers(&self, now: Instant) -> Set<PeerId> {
        self.peer_cooling@.dom().filter(
            |p: PeerId| self.peer_cooling@[p].expired(now) && !self.peer_cooling@[p].recovery_probe_in_flight,
        )
    }

    /// Lists the peers whose cooldown has run out without a probe under way, and drops the cooling
    /// state of those that have no role.
    fn drop_overdue_cooling(&mut self, now: Instant) -> (r: Vec<PeerId>)
        requires
            old(self).wf(),
        ensures
            final(self).wf(),
            r@.no_duplicates(),
            r@.to_set() == old(self).overdue_peers(now),
            final(self).cooling_dropped_from(old(self), now),
    {
        let peers: Vec<PeerId> = self.peer_cooling.keys();
        let ghost all = self.peer_cooling@;
        let mut listed: Vec<PeerId> = Vec::new();
        let mut i: usize = 0;
        while i < peers.len()
            invariant
                i <= peers@.len(),
                peers@.no_duplicates(),
                peers@.to_set() == all.dom(),
                all == old(self).peer_cooling@,
                self.wf(),
                self.same_mesh(old(self)),
                self.same_messages(old(self)),
                self.peer_scores == old(self).peer_scores,
                forall|p: PeerId| #[trigger] self.peer_cooling@.dom().contains(p) ==> all.dom().contains(p)
                    && self.peer_cooling@[p] == all[p],
                forall|j: int| i <= j < peers@.len() ==> self.peer_cooling@.dom().contains(#[trigger] peers@[j]),
                forall|j: int|
                    0 <= j < i ==> self.peer_cooling@.dom().contains(#[trigger] peers@[j]) == !(old(
                        self,
                    ).overdue_peers(now).contains(peers@[j]) && !old(self).eager_peers@.contains(peers@[j]) && !old(
                        self,
                    ).lazy_peers@.contains(peers@[j])),
                listed@.no_duplicates(),
                forall|p: PeerId| #[trigger]
                    listed@.contains(p) <==> peers@.take(i as int).contains(p) && old(self).overdue_peers(now).contains(p),
            decreases peers@.len() - i,
        {
            let peer = peers[i];
            proof {
                assert(peers@.to_set().contains(peer));
                let before = peers@.take(i as int);
                let after = peers@.take(i + 1);
                assert(after =~= before.push(peer));
                assert(!before.contains(peer));
                assert forall|p: PeerId| #[trigger] after.contains(p) <==> before.contains(p) || p == peer by {
                    if before.contains(p) {
                        assert(after[before.index_of(p)] == p);
                    }
                    if after.contains(p) && p != peer {
                        assert(before[after.index_of(p)] == p);
                    }
                    assert(after[i as int] == peer);
                }
            }
            let due = match self.peer_cooling.get(&peer) {
                Some(state) => state.suppression_expired_at(now) && !state.recovery_probe_in_flight,
                None => false,
            };
            if due {
                let ghost before = listed@;
                assert(!before.contains(peer));
                listed.push(peer);
                proof {
                    assert forall|p: PeerId| #[trigger] listed@.contains(p) <==> before.contains(p) || p == peer by {
                        if before.contains(p) {
                            assert(listed@[before.index_of(p)] == p);
                        }
                        if listed@.contains(p) && p != peer {
                            assert(before[listed@.index_of(p)] == p);
                        }
                        assert(listed@[before.len() as int] == peer);
                    }
                }
                if !self.eager_peers.contains(&peer) && !self.lazy_peers.contains(&peer) {
                    self.peer_cooling.remove(&peer);
                }
            }
            i = i + 1;
        }
        proof {
            assert(peers@.take(peers@.len() as int) =~= peers@);
            assert forall|p: PeerId| #[trigger] all.dom().contains(p) implies peers@.contains(p) && peers@[peers@.index_of(
                p,
            )] == p by {
                assert(peers@.to_set().contains(p));
            }
            assert(listed@.to_set() =~= old(self).overdue_peers(now));
            assert(self.peer_cooling@ =~= all.restrict(
                Set::new(
                    |p: PeerId|
                        !old(self).overdue_peers(now).contains(p) || old(self).eager_peers@.contains(p) || old(
                            self,
                        ).lazy_peers@.contains(p),
                ),
            ));
        }
        listed
    }

    /// Nothing has changed but that peers without a role whose cooldown has run out have no
    /// cooling state.
    pub open spec fn cooling_dropped_from(&self, before: &Self, now: Instant) -> bool {
        &&& self.same_mesh(before)
        &&& self.same_messages(before)
        &&& self.peer_scores == before.peer_scores
        &&& self.peer_cooling@ == before.peer_cooling@.restrict(
            Set::new(
                |p: PeerId|
                    !before.overdue_peers(now).contains(p) || before.eager_peers@.contains(p)
                        || before.lazy_peers@.contains(p),
            ),
        )
    }

    /// Nothing has changed but that no peer is left that is not connected.
    pub open spec fn retained_from(&self, before: &Self, connected: Set<PeerId>) -> bool {
        &&& self.eager_peers@ == before.eager_peers@.intersect(connected)
        &&& self.lazy_peers@ == before.lazy_peers@.intersect(connected)
        &&& self.peer_cooling@ == before.peer_cooling@.restrict(connected)
        &&& self.last_opportunistic_graft == before.last_opportunistic_graft
        &&& self.max_eager_degree == before.max_eager_degree
        &&& self.same_messages(before)
        &&& self.peer_scores == before.peer_scores
    }

    /// Drops every peer that is not connected; lists those that had a cooling state.
    pub fn retain_connected(&mut self, connected: &IdSet<PeerId>) -> (r: Vec<PeerId>)
        requires
            old(self).wf(),
            connected.wf(),
        ensures
            final(self).wf(),
            final(self).retained_from(old(self), connected@),
            r@.no_duplicates(),
            forall|p: PeerId| #[trigger]
                r@.contains(p) <==> old(self).peer_cooling@.dom().contains(p) && !connected@.contains(p),
    {
        self.eager_peers.retain_in(connected);
        self.lazy_peers.retain_in(connected);
        self.clear_disconnected_peer_cooling(connected)
    }
}

/// The suppressions that are still reported after the overdue ones were dropped.
pub open spec fn still_reported(topics: Map<TopicId, TopicState>, now: Instant) -> Set<SuppressedPeerKey> {
    Set::new(|k: SuppressedPeerKey| !overdue(topics, k.topic, k.peer, now))
}

/// Stops reporting the suppressions whose cooldown has run out, and drops the cooling state of the
/// peers among them that have no role; says how many were reported.
pub fn clean_expired_peer_cooling(
    topics: &mut IdMap<TopicId, TopicState>,
    stats: &mut PubSubStageStats,
    now: Instant,
) -> (r: usize)
    requires
        topics_wf(*old(topics)),
        old(stats).wf(),
    ensures
        topics_wf(*final(topics)),
        final(stats).wf(),
        final(topics)@.dom() == old(topics)@.dom(),
        forall|t: TopicId| #[trigger]
            old(topics)@.dom().contains(t) ==> final(topics)@[t].cooling_dropped_from(&old(topics)@[t], now),
        final(stats).only_suppressions_changed(old(stats)),
        final(stats).suppressed_peers@ == old(stats).suppressed_peers@.restrict(still_reported(old(topics)@, now)),
        r == old(stats).suppressed_peers@.dom().len() - final(stats).suppressed_peers@.dom().len(),
{
    let keys: Vec<TopicId> = topics.keys();
    let ghost all = topics@;
    let ghost reported = stats.suppressed_peers@;
    let before_count: usize = stats.suppressed_peer_count();
    let mut i: usize = 0;
    assert(reported =~= reported.restrict(still_reported_in(all, keys@.take(0), now)));
    while i < keys.len()
        invariant
            i <= keys@.len(),
            keys@.no_duplicates(),
            keys@.to_set() == all.dom(),
            all == old(topics)@,
            reported == old(stats).suppressed_peers@,
            topics_wf(*topics),
            stats.wf(),
            topics@.dom() == all.dom(),
            forall|j: int| i <= j < keys@.len() ==> topics@[#[trigger] keys@[j]] == all[keys@[j]],
            forall|j: int| 0 <= j < i ==> topics@[#[trigger] keys@[j]].cooling_dropped_from(&all[keys@[j]], now),
            stats.only_suppressions_changed(old(stats)),
            stats.suppressed_peers@ == reported.restrict(still_reported_in(all, keys@.take(i as int), now)),
        decreases keys@.len() - i,
    {
        let key = keys[i];
        proof {
            assert(keys@.to_set().contains(key));
            lemma_take_contains(keys@, i as int);
        }
        if let Some(state) = topics.get_mut(&key) {
            let ghost before = *state;
            let listed = state.drop_overdue_cooling(now);
            let ghost start = stats.suppressed_peers@;
            let mut n: usize = 0;
            assert(start =~= start.restrict(
                Set::new(|k: SuppressedPeerKey| k.topic != key || !listed@.take(0).contains(k.peer)),
            ));
            while n < listed.len()
                invariant
                    n <= listed@.len(),
                    stats.wf(),
                    stats.only_suppressions_changed(old(stats)),
                    stats.suppressed_peers@ == start.restrict(
                        Set::new(
                            |k: SuppressedPeerKey| k.topic != key || !listed@.take(n as int).contains(k.peer),
                        ),
                    ),
                decreases listed@.len() - n,
            {
                let peer = listed[n];
                stats.clear_peer_suppression(key, peer);
                proof {
                    lemma_take_contains(listed@, n as int);
                    assert(stats.suppressed_peers@ =~= start.restrict(
                        Set::new(|k: SuppressedPeerKey| k.topic != key || !listed@.take(n + 1).contains(k.peer)),
                    ));
                }
                n = n + 1;
            }
            proof {
                assert(listed@.take(listed@.len() as int) =~= listed@);
                assert forall|p: PeerId| #[trigger] listed@.contains(p) == overdue(all, key, p, now) by {
                    assert(listed@.to_set().contains(p) == listed@.contains(p));
                    assert(before.overdue_peers(now).contains(p) == overdue(all, key, p, now));
                }
            }
        }
        proof {
            assert(topics@.dom() =~= all.dom());
            assert(stats.suppressed_peers@ =~= reported.restrict(still_reported_in(all, keys@.take(i + 1), now)));
        }
        i = i + 1;
    }
    proof {
        assert(keys@.take(keys@.len() as int) =~= keys@);
        assert forall|t: TopicId| #[trigger] all.dom().contains(t) implies keys@.contains(t) && keys@[keys@.index_of(t)]
            == t by {
            assert(keys@.to_set().contains(t));
        }
        assert(still_reported_in(all, keys@, now) =~= still_reported(all, now));
        old(stats).suppressed_peers.lemma_listed();
        assert(stats.suppressed_peers@.dom().subset_of(reported.dom()));
        vstd::set_lib::lemma_len_subset(stats.suppressed_peers@.dom(), reported.dom());
    }
    before_count - stats.suppressed_peer_count()
}

/// The suppressions that are still reported once the given topics were looked at.
pub open spec fn still_reported_in(topics: Map<TopicId, TopicState>, done: Seq<TopicId>, now: Instant) -> Set<
    SuppressedPeerKey,
> {
    Set::new(|k: SuppressedPeerKey| !(done.contains(k.topic) && overdue(topics, k.topic, k.peer, now)))
}

proof fn lemma_take_contains<A>(s: Seq<A>, i: int)
    requires
        0 <= i < s.len(),
    ensures
        forall|x: A| #[trigger] s.take(i + 1).contains(x) <==> s.take(i).contains(x) || x == s[i],
{
    let before = s.take(i);
    let after = s.take(i + 1);
    assert forall|x: A| #[trigger] after.contains(x) <==> before.contains(x) || x == s[i] by {
        if before.contains(x) {
            assert(after[before.index_of(x)] == x);
        }
        if after.contains(x) && x != s[i] {
            assert(before[after.index_of(x)] == x);
        }
        assert(after[i] == s[i]);
    }
}

/// How long to wait before the next cleanup: longer while there are none or fewer suppressions,
/// shorter while there are more.
pub open spec fn cleanup_interval_ms(previous_len: usize, current_len: usize, previous_ms: u64) -> u64 {
    let next = if current_len == 0 || current_len < previous_len {
        if previous_ms * 2 <= u64::MAX { (previous_ms * 2) as u64 } else { u64::MAX }
    } else if current_len > previous_len {
        previous_ms / 2
    } else {
        previous_ms
    };
    if next < SUPPRESSION_CLEANUP_MIN_INTERVAL_MS {
        SUPPRESSION_CLEANUP_MIN_INTERVAL_MS
    } else if next > SUPPRESSION_CLEANUP_MAX_INTERVAL_MS {
        SUPPRESSION_CLEANUP_MAX_INTERVAL_MS
    } else {
        next
    }
}

/// How long to wait before the next cleanup of suppressions.
pub fn next_suppression_cleanup_interval(previous_len: usize, current_len: usize, previous_interval: Duration) -> (r:
    Duration)
    ensures
        r == crate::config::millis(
            cleanup_interval_ms(
                previous_len,
                current_len,
                as_count((previous_interval.nanos / NANOS_PER_MILLI) as nat),
            ),
        ),
{
    let previous_ms: u64 = duration_millis_u64(previous_interval);
    let next_ms: u64 = if current_len == 0 || current_len < previous_len {
        if previous_ms <= u64::MAX / 2 { previous_ms * 2 } else { u64::MAX }
    } else if current_len > previous_len {
        previous_ms / 2
    } else {
        previous_ms
    };
    let clamped: u64 = if next_ms < SUPPRESSION_CLEANUP_MIN_INTERVAL_MS {
        SUPPRESSION_CLEANUP_MIN_INTERVAL_MS
    } else if next_ms > SUPPRESSION_CLEANUP_MAX_INTERVAL_MS {
        SUPPRESSION_CLEANUP_MAX_INTERVAL_MS
    } else {
        next_ms
    };
    Duration::from_millis(clamped)
}

/// The wait between cleanups stays between its bounds.
pub proof fn cleanup_interval_is_bounded(previous_len: usize, current_len: usize, previous_ms: u64)
    ensures
        SUPPRESSION_CLEANUP_MIN_INTERVAL_MS <= cleanup_interval_ms(previous_len, current_len, previous_ms)
            <= SUPPRESSION_CLEANUP_MAX_INTERVAL_MS,
{
}

/// A peer that some topic knows in whatever way.
pub open spec fn known_to(state: TopicState, peer: PeerId) -> bool {
    ||| state.eager_peers@.contains(peer)
    ||| state.lazy_peers@.contains(peer)
    ||| state.peer_cooling@.dom().contains(peer)
    ||| state.peer_scores@.dom().contains(peer)
}

fn add_all(set: &mut IdSet<PeerId>, peers: &Vec<PeerId>)
    requires
        old(set).wf(),
    ensures
        final(set).wf(),
        final(set)@ == old(set)@.union(peers@.to_set()),
{
    let mut i: usize = 0;
    assert(set@ =~= old(set)@.union(peers@.take(0).to_set()));
    while i < peers.len()
        invariant
            i <= peers@.len(),
            set.wf(),
            set@ == old(set)@.union(peers@.take(i as int).to_set()),
        decreases peers@.len() - i,
    {
        set.insert(peers[i]);
        proof {
            lemma_take_contains(peers@, i as int);
            assert(set@ =~= old(set)@.union(peers@.take(i + 1).to_set()));
        }
        i = i + 1;
    }
    assert(peers@.take(peers@.len() as int) =~= peers@);
}

/// Every peer that some topic knows.
pub fn known_pubsub_peers(topics: &IdMap<TopicId, TopicState>) -> (r: IdSet<PeerId>)
    requires
        topics_wf(*topics),
    ensures
        r.wf(),
        forall|p: PeerId| #[trigger]
            r@.contains(p) <==> exists|t: TopicId| #[trigger] topics@.dom().contains(t) && known_to(topics@[t], p),
{
    let keys: Vec<TopicId> = topics.keys();
    let mut r: IdSet<PeerId> = IdSet::new();
    let mut i: usize = 0;
    while i < keys.len()
        invariant
            i <= keys@.len(),
            topics_wf(*topics),
            keys@.to_set() == topics@.dom(),
            r.wf(),
            forall|p: PeerId| #[trigger]
                r@.contains(p) <==> exists|j: int| 0 <= j < i && known_to(topics@[#[trigger] keys@[j]], p),
        decreases keys@.len() - i,
    {
        let ghost before = r@;
        assert(keys@.to_set().contains(keys@[i as int]));
        if let Some(state) = topics.get(&keys[i]) {
            let eager = state.eager_peers.to_vec();
            let lazy = state.lazy_peers.to_vec();
            let cooling = state.peer_cooling.keys();
            let scored = state.peer_scores.keys();
            add_all(&mut r, &eager);
            add_all(&mut r, &lazy);
            add_all(&mut r, &cooling);
            add_all(&mut r, &scored);
            proof {
                assert forall|p: PeerId| #[trigger] r@.contains(p) <==> exists|j: int|
                    0 <= j < i + 1 && known_to(topics@[#[trigger] keys@[j]], p) by {
                    assert(r@.contains(p) <==> before.contains(p) || known_to(*state, p));
                    if before.contains(p) {
                        let j = choose|j: int| 0 <= j < i && known_to(topics@[#[trigger] keys@[j]], p);
                        assert(known_to(topics@[keys@[j]], p));
                    }
                    if known_to(*state, p) {
                        assert(known_to(topics@[keys@[i as int]], p));
                    }
                    if exists|j: int| 0 <= j < i + 1 && known_to(topics@[#[trigger] keys@[j]], p) {
                        let j = choose|j: int| 0 <= j < i + 1 && known_to(topics@[#[trigger] keys@[j]], p);
                        if j < i {
                            assert(before.contains(p));
                        }
                    }
                }
            }
        }
        i = i + 1;
    }
    proof {
        assert forall|p: PeerId| #[trigger] r@.contains(p) <==> exists|t: TopicId| #[trigger] topics@.dom().contains(t)
            && known_to(topics@[t], p) by {
            if r@.contains(p) {
                let j = choose|j: int| 0 <= j < keys@.len() && known_to(topics@[#[trigger] keys@[j]], p);
                assert(keys@.to_set().contains(keys@[j]));
                assert(topics@.dom().contains(keys@[j]));
            }
            if exists|t: TopicId| #[trigger] topics@.dom().contains(t) && known_to(topics@[t], p) {
                let t = choose|t: TopicId| #[trigger] topics@.dom().contains(t) && known_to(topics@[t], p);
                assert(keys@.to_set().contains(t));
                let j = keys@.index_of(t);
                assert(keys@[j] == t);
            }
        }
    }
    r
}

/// The suppressions on other topics than these.
pub open spec fn off_topics(topics: Seq<TopicId>) -> Set<SuppressedPeerKey> {
    Set::new(|k: SuppressedPeerKey| !topics.contains(k.topic))
}

/// Ends a cleanup: the suppressions on dropped topics are no longer reported, the cleanup is, and
/// the wait until the next one is handed back. `current_len` is the number of suppressions that the
/// cleanup left before the topics were dropped.
pub fn finish_cleanup(
    stats: &mut PubSubStageStats,
    idle: &Vec<TopicId>,
    previous_len: usize,
    current_len: usize,
    interval: Duration,
    growth_rate_bits: u64,
    removed: usize,
) -> (r: Duration)
    requires
        old(stats).wf(),
    ensures
        final(stats).wf(),
        r == crate::config::millis(
            cleanup_interval_ms(previous_len, current_len, as_count((interval.nanos / NANOS_PER_MILLI) as nat)),
        ),
        final(stats).suppressed_peers@ == old(stats).suppressed_peers@.restrict(off_topics(idle@)),
        final(stats).suppression_cleanup == (crate::stats::SuppressionCleanupStats {
            current_interval_ms: as_count((r.nanos / NANOS_PER_MILLI) as nat),
            growth_rate_bits,
            current_entries: current_len as u64,
            last_removed: removed as u64,
        }),
        final(stats).message_kinds == old(stats).message_kinds,
        final(stats).same_timings(old(stats)),
        final(stats).republish_per_peer_timeout == old(stats).republish_per_peer_timeout,
        final(stats).outbound_budget_exhausted == old(stats).outbound_budget_exhausted,
        final(stats).cooldown_bypass_probes == old(stats).cooldown_bypass_probes,
        final(stats).cooldown_bypass_successes == old(stats).cooldown_bypass_successes,
{
    let ghost all = stats.suppressed_peers@;
    let mut i: usize = 0;
    assert(all =~= all.restrict(off_topics(idle@.take(0))));
    while i < idle.len()
        invariant
            i <= idle@.len(),
            stats.wf(),
            stats.only_suppressions_changed(old(stats)),
            stats.suppressed_peers@ == all.restrict(off_topics(idle@.take(i as int))),
        decreases idle@.len() - i,
    {
        stats.clear_topic_suppressions(idle[i]);
        proof {
            lemma_take_contains(idle@, i as int);
            assert(stats.suppressed_peers@ =~= all.restrict(off_topics(idle@.take(i + 1))));
        }
        i = i + 1;
    }
    assert(idle@.take(idle@.len() as int) =~= idle@);
    let next = next_suppression_cleanup_interval(previous_len, current_len, interval);
    stats.record_suppression_cleanup(next, growth_rate_bits, current_len, removed);
    next
}

/// Drops a topic and the reports of its suppressions; says whether there was such a topic.
pub fn unsubscribe(topics: &mut IdMap<TopicId, TopicState>, stats: &mut PubSubStageStats, topic: TopicId) -> (r: bool)
    requires
        topics_wf(*old(topics)),
        old(stats).wf(),
    ensures
        topics_wf(*final(topics)),
        final(stats).wf(),
        r == old(topics)@.dom().contains(topic),
        final(topics)@ == old(topics)@.remove(topic),
        final(stats).only_suppressions_changed(old(stats)),
        final(stats).suppressed_peers@ == old(stats).suppressed_peers@.restrict(
            Set::new(|k: SuppressedPeerKey| k.topic != topic),
        ),
{
    let r = topics.remove(&topic).is_some();
    stats.clear_topic_suppressions(topic);
    r
}

/// The cooling states of all topics together.
pub open spec fn cooling_entries(topics: Map<TopicId, TopicState>, order: Seq<TopicId>) -> nat
    decreases order.len(),
{
    if order.len() == 0 {
        0
    } else {
        cooling_entries(topics, order.drop_last()) + topics[order.last()].peer_cooling@.dom().len()
    }
}

/// How many cooling states the topics hold together, held at the largest `usize`.
pub fn count_peer_cooling_entries(topics: &IdMap<TopicId, TopicState>) -> (r: usize)
    requires
        topics_wf(*topics),
    ensures
        r == (if cooling_entries(topics@, topics.listed()) <= usize::MAX {
            cooling_entries(topics@, topics.listed())
        } else {
            usize::MAX as nat
        }),
{
    let keys = topics.keys();
    let mut total: usize = 0;
    let mut i: usize = 0;
    assert(keys@.take(0) =~= Seq::empty());
    while i < keys.len()
        invariant
            i <= keys@.len(),
            topics_wf(*topics),
            keys@.to_set() == topics@.dom(),
            total == (if cooling_entries(topics@, keys@.take(i as int)) <= usize::MAX {
                cooling_entries(topics@, keys@.take(i as int))
            } else {
                usize::MAX as nat
            }),
        decreases keys@.len() - i,
    {
        proof {
            assert(keys@.to_set().contains(keys@[i as int]));
            assert(keys@.take(i + 1).drop_last() =~= keys@.take(i as int));
            assert(keys@.take(i + 1).last() == keys@[i as int]);
        }
        if let Some(state) = topics.get(&keys[i]) {
            total = total.saturating_add(state.peer_cooling.len());
        }
        i = i + 1;
    }
    assert(keys@.take(keys@.len() as int) =~= keys@);
    total
}

/// The wait between cleanups in numbers: half as long while there are more suppressions than before,
/// twice as long while there are fewer or none, and the same while there are as many; all between
/// the bounds.
pub proof fn cleanup_follows_the_suppressions(previous_len: usize, current_len: usize, previous_ms: u64)
    requires
        previous_ms <= SUPPRESSION_CLEANUP_MAX_INTERVAL_MS,
    ensures
        ({
            let r = cleanup_interval_ms(previous_len, current_len, previous_ms);
            let low = SUPPRESSION_CLEANUP_MIN_INTERVAL_MS;
            let high = SUPPRESSION_CLEANUP_MAX_INTERVAL_MS;
            let fewer = current_len == 0 || current_len < previous_len;
            let more = current_len > 0 && current_len > previous_len;
            &&& fewer && low <= 2 * previous_ms <= high ==> r == 2 * previous_ms
            &&& fewer && 2 * previous_ms > high ==> r == high
            &&& more && previous_ms / 2 >= low ==> r == previous_ms / 2
            &&& more && previous_ms / 2 < low ==> r == low
            &&& !fewer && !more && low <= previous_ms ==> r == previous_ms
        }),
{
}

/// Which suppressions a cleanup drops: those whose cooldown has run out without a probe under way.
/// Their cooling states go too where the peer has no role; every other one stays as it is.
pub proof fn cleanups_drop_what_has_run_out(
    before: TopicState,
    after: TopicState,
    topics: Map<TopicId, TopicState>,
    topic: TopicId,
    peer: PeerId,
    now: Instant,
)
    requires
        topics.dom().contains(topic),
        topics[topic] == before,
        after.cooling_dropped_from(&before, now),
    ensures
        ({
            let cooling = before.peer_cooling@;
            let out = cooling.dom().contains(peer) && cooling[peer].suppressed_until is Some
                && cooling[peer].suppressed_until->0.nanos <= now.nanos && !cooling[peer].recovery_probe_in_flight;
            let role = before.eager_peers@.contains(peer) || before.lazy_peers@.contains(peer);
            &&& still_reported(topics, now).contains(SuppressedPeerKey { topic, peer }) <==> !out
            &&& after.peer_cooling@.dom().contains(peer) <==> cooling.dom().contains(peer) && (!out || role)
            &&& after.peer_cooling@.dom().contains(peer) ==> after.peer_cooling@[peer] == cooling[peer]
            &&& after.eager_peers == before.eager_peers && after.lazy_peers == before.lazy_peers
        }),
{
}

/// A peer is known where it has a role, a cooling state or a score.
pub proof fn known_peers_are_all_that_were_seen(state: TopicState, peer: PeerId)
    ensures
        known_to(state, peer) <==> state.eager_peers@.contains(peer) || state.lazy_peers@.contains(peer)
            || state.peer_cooling@.dom().contains(peer) || state.peer_scores@.dom().contains(peer),
{
}

/// The cooling states of topics are added up one by one.
pub proof fn cooling_states_add_up(topics: Map<TopicId, TopicState>, order: Seq<TopicId>, topic: TopicId)
    ensures
        cooling_entries(topics, Seq::<TopicId>::empty()) == 0,
        cooling_entries(topics, order.push(topic)) == cooling_entries(topics, order)
            + topics[topic].peer_cooling@.dom().len(),
        forall|k: SuppressedPeerKey| #[trigger]
            off_topics(order).contains(k) <==> !(exists|i: int| 0 <= i < order.len() && #[trigger] order[i] == k.topic),
{
    assert(order.push(topic).drop_last() =~= order);
}

/// The cooling of a peer is kept as it is while the peer is connected, and forgotten with the
/// connection; what is known of its sends is kept.
pub proof fn cooling_ends_with_the_connection(before: TopicState, after: TopicState, connected: Set<PeerId>, peer: PeerId)
    requires
        after.retained_from(&before, connected),
    ensures
        after.peer_cooling@.dom().contains(peer) <==> before.peer_cooling@.dom().contains(peer) && connected.contains(peer),
        after.peer_cooling@.dom().contains(peer) ==> after.peer_cooling@[peer] == before.peer_cooling@[peer],
        after.eager_peers@.contains(peer) <==> before.eager_peers@.contains(peer) && connected.contains(peer),
        after.lazy_peers@.contains(peer) <==> before.lazy_peers@.contains(peer) && connected.contains(peer),
        after.peer_scores == before.peer_scores,
{
}

} // verus!
