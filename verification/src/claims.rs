//! Which sends go out: a peer must be connected, not cooling, and within its budget.

use vstd::prelude::*;

use crate::budget::{is_critical, OutboundSendClass, OutboundSendPermit, PeerOutboundBudgets, SendOp, TopicPriority};
use crate::collections::{IdMap, IdSet};
use crate::config::OUTBOUND_CRITICAL_QUEUE_PER_PEER;
use crate::cooling::{
    PeerHealth, PeerRecoveryProbeEvent, PeerSendAttempt, PeerSuppressionEvent, ProbeIds, SendAttemptKind,
};
use crate::ids::{PeerId, TopicId};
use crate::score::PeerScore;
use crate::stats::{PubSubStageStats, SuppressedPeerKey, SuppressedPeerState};
use crate::time::Instant;
use crate::timing::AdaptiveCoolingConfig;
use crate::topic::{cooling_or_new, score_or_new, TopicState};

verus! {

/// What a round of sends is for, and what is known of the peers.
pub struct SendContext {
    pub topic: TopicId,
    pub op: SendOp,
    pub priority: TopicPriority,
    /// The connected peers; `None` where that is not known.
    pub connected: Option<IdSet<PeerId>>,
    pub health: IdMap<PeerId, PeerHealth>,
    pub cooling_config: AdaptiveCoolingConfig,
    pub unix_now_ms: u64,
}

impl SendContext {
    pub open spec fn wf(&self) -> bool {
        &&& self.health.wf()
        &&& self.connected is Some ==> self.connected->0.wf()
    }

    pub open spec fn class(&self) -> OutboundSendClass {
        OutboundSendClass::of_op(self.op)
    }

    pub open spec fn critical(&self) -> bool {
        is_critical(self.class(), self.priority)
    }

    /// The peer is known not to be connected.
    pub open spec fn disconnected(&self, peer: PeerId) -> bool {
        self.connected is Some && !self.connected->0@.contains(peer)
    }

    pub open spec fn health_of(&self, peer: PeerId) -> Option<PeerHealth> {
        if self.health@.dom().contains(peer) { Some(self.health@[peer]) } else { None }
    }

    pub fn peer_is_transport_disconnected(&self, peer: &PeerId) -> (r: bool)
        ensures
            r == self.disconnected(*peer),
    {
        match &self.connected {
            Some(connected) => !connected.contains(peer),
            None => false,
        }
    }

    pub fn peer_health(&self, peer: &PeerId) -> (r: Option<PeerHealth>)
        requires
            self.wf(),
        ensures
            r == self.health_of(*peer),
    {
        match self.health.get(peer) {
            Some(health) => Some(*health),
            None => None,
        }
    }
}

/// What came of a round of claims.
pub struct ClaimOutcome {
    /// The sends that go out.
    pub attempts: Vec<PeerSendAttempt>,
    /// The permit of each of them.
    pub permits: Vec<OutboundSendPermit>,
    /// Peers that the membership layer should look at.
    pub indirect_probes: Vec<PeerId>,
    /// Peers whose queue of critical sends was full.
    pub critical_hard_errors: Vec<PeerId>,
    /// Peers that were cooling while a critical send was due.
    pub critical_cooling: Vec<PeerId>,
}

impl ClaimOutcome {
    pub open spec fn same(&self, other: &Self) -> bool {
        &&& self.attempts@ == other.attempts@
        &&& self.permits@ == other.permits@
        &&& self.indirect_probes@ == other.indirect_probes@
        &&& self.critical_hard_errors@ == other.critical_hard_errors@
        &&& self.critical_cooling@ == other.critical_cooling@
    }

    pub fn new() -> (r: Self)
        ensures
            r.attempts@.len() == 0,
            r.permits@.len() == 0,
            r.indirect_probes@.len() == 0,
            r.critical_hard_errors@.len() == 0,
            r.critical_cooling@.len() == 0,
    {
        ClaimOutcome {
            attempts: Vec::new(),
            permits: Vec::new(),
            indirect_probes: Vec::new(),
            critical_hard_errors: Vec::new(),
            critical_cooling: Vec::new(),
        }
    }
}

/// All that a round of claims touches.
pub struct SendWorld {
    pub state: TopicState,
    pub budgets: PeerOutboundBudgets,
    pub stats: PubSubStageStats,
    pub ids: ProbeIds,
    pub out: ClaimOutcome,
}

/// A recovery probe is noted in the peer's score.
pub open spec fn probe_noted(after: TopicState, before: TopicState, attempt: PeerSendAttempt, now: Instant) -> bool {
    if attempt.kind == SendAttemptKind::RecoveryProbe {
        &&& after.peer_scores@ == before.peer_scores@.insert(
            attempt.peer,
            score_or_new(before.peer_scores@, attempt.peer, now).probed(now),
        )
        &&& after.same_mesh(&before)
        &&& after.same_messages(&before)
        &&& after.peer_cooling == before.peer_cooling
    } else {
        after == before
    }
}

/// A claim is counted, and a recovery probe reported.
pub open spec fn claim_reported(
    after: PubSubStageStats,
    before: PubSubStageStats,
    ctx: SendContext,
    attempt: PeerSendAttempt,
    event: Option<PeerRecoveryProbeEvent>,
) -> bool {
    &&& after.message_kinds == before.message_kinds
    &&& after.same_timings(&before)
    &&& after.republish_per_peer_timeout == before.republish_per_peer_timeout
    &&& after.outbound_budget_exhausted == before.outbound_budget_exhausted
    &&& after.cooldown_bypass_probes == (if attempt.kind == SendAttemptKind::CooldownBypass {
        before.cooldown_bypass_probes.wrapping_add(1)
    } else {
        before.cooldown_bypass_probes
    })
    &&& after.cooldown_bypass_successes == before.cooldown_bypass_successes
    &&& after.suppression_cleanup == before.suppression_cleanup
    &&& after.suppressed_peers@ == match event {
        Some(e) => before.suppressed_peers@.insert(
            SuppressedPeerKey { topic: ctx.topic, peer: attempt.peer },
            SuppressedPeerState {
                suppressed_until: e.suppressed_until,
                recent_timeout_count: e.recent_timeout_count,
                cooldown: e.cooldown,
                last_suppressed_unix_ms: ctx.unix_now_ms,
                recovery_probe_in_flight: true,
            },
        ),
        None => before.suppressed_peers@,
    }
}

/// What is reported where a send is refused for want of a permit or times out: the suppression and
/// the demotion that come of it, and the refusal where `exhausted`.
pub open spec fn suppression_reported(
    after: PubSubStageStats,
    before: PubSubStageStats,
    ctx: SendContext,
    peer: PeerId,
    suppression: Option<PeerSuppressionEvent>,
    exhausted: bool,
) -> bool {
    &&& after.message_kinds == (if suppression is Some && suppression->0.demoted {
        crate::stats::PubSubMessageKindStats {
            prune: before.message_kinds.prune.wrapping_add(1),
            ..before.message_kinds
        }
    } else {
        before.message_kinds
    })
    &&& after.same_timings(&before)
    &&& after.republish_per_peer_timeout == before.republish_per_peer_timeout
    &&& after.outbound_budget_exhausted == (if exhausted {
        before.outbound_budget_exhausted.wrapping_add(1)
    } else {
        before.outbound_budget_exhausted
    })
    &&& after.cooldown_bypass_probes == before.cooldown_bypass_probes
    &&& after.cooldown_bypass_successes == before.cooldown_bypass_successes
    &&& after.suppression_cleanup == before.suppression_cleanup
    &&& after.suppressed_peers@ == match suppression {
        Some(e) => before.suppressed_peers@.insert(
            SuppressedPeerKey { topic: ctx.topic, peer },
            SuppressedPeerState {
                suppressed_until: e.suppressed_until,
                recent_timeout_count: e.recent_timeout_count,
                cooldown: e.cooldown,
                last_suppressed_unix_ms: ctx.unix_now_ms,
                recovery_probe_in_flight: false,
            },
        ),
        None => before.suppressed_peers@,
    }
}

/// A claim that got no permit: the peer is treated as one whose send timed out, or, where its
/// critical queue is full, suppressed at once.
pub open spec fn refusal_recorded(
    ctx: SendContext,
    before: SendWorld,
    after: SendWorld,
    attempt: PeerSendAttempt,
    now: Instant,
) -> bool {
    if ctx.critical() {
        let effect = before.state.overflow_effect(attempt, now, ctx.health_of(attempt.peer), ctx.cooling_config);
        let outcome = before.state.outcome_of(attempt, now, effect);
        &&& after.state.after_overflow(&before.state, attempt, now, effect)
        &&& suppression_reported(after.stats, before.stats, ctx, attempt.peer, outcome.suppression, true)
        &&& after.out.attempts@ == before.out.attempts@
        &&& after.out.permits@ == before.out.permits@
        &&& after.out.indirect_probes@ == before.out.indirect_probes@
        &&& after.out.critical_hard_errors@ == before.out.critical_hard_errors@.push(attempt.peer)
        &&& after.out.critical_cooling@ == before.out.critical_cooling@
    } else {
        let effect = before.state.timeout_effect(
            attempt,
            now,
            Some(ctx.cooling_config),
            ctx.health_of(attempt.peer),
        );
        let outcome = before.state.outcome_of(attempt, now, effect);
        &&& after.state.after_timeout(&before.state, attempt, now, effect)
        &&& suppression_reported(after.stats, before.stats, ctx, attempt.peer, outcome.suppression, true)
        &&& after.out.attempts@ == before.out.attempts@
        &&& after.out.permits@ == before.out.permits@
        &&& after.out.indirect_probes@ == (if outcome.request_indirect_probe {
            before.out.indirect_probes@.push(attempt.peer)
        } else {
            before.out.indirect_probes@
        })
        &&& after.out.critical_hard_errors@ == before.out.critical_hard_errors@
        &&& after.out.critical_cooling@ == before.out.critical_cooling@
    }
}

/// A claim whose peer may be sent to: it is noted, and goes out where a permit is left.
pub open spec fn claim_settled(
    ctx: SendContext,
    before: SendWorld,
    claimed: TopicState,
    after: SendWorld,
    attempt: PeerSendAttempt,
    event: Option<PeerRecoveryProbeEvent>,
    now: Instant,
) -> bool {
    exists|noted: TopicState, reported: PubSubStageStats, permit: Option<OutboundSendPermit>|
        {
            &&& #[trigger] probe_noted(noted, claimed, attempt, now)
            &&& #[trigger] claim_reported(reported, before.stats, ctx, attempt, event)
            &&& #[trigger] after.budgets.acquired(
                &before.budgets,
                attempt.peer,
                ctx.class(),
                ctx.priority,
                now,
                permit,
            )
            &&& match permit {
                Some(p) => {
                    &&& after.state == noted
                    &&& after.stats == reported
                    &&& after.out.attempts@ == before.out.attempts@.push(attempt)
                    &&& after.out.permits@ == before.out.permits@.push(p)
                    &&& after.out.indirect_probes@ == before.out.indirect_probes@
                    &&& after.out.critical_hard_errors@ == before.out.critical_hard_errors@
                    &&& after.out.critical_cooling@ == before.out.critical_cooling@
                },
                None => refusal_recorded(
                    ctx,
                    SendWorld { state: noted, stats: reported, ..before },
                    after,
                    attempt,
                    now,
                ),
            }
        }
}

/// What asking for a send to one peer does.
pub open spec fn claim_step(ctx: SendContext, before: SendWorld, after: SendWorld, peer: PeerId, now: Instant) -> bool {
    if ctx.disconnected(peer) {
        &&& after.state == before.state
        &&& after.budgets == before.budgets
        &&& after.stats == before.stats
        &&& after.ids == before.ids
        &&& after.out.same(&before.out)
    } else {
        exists|claimed: TopicState, r: Option<(PeerSendAttempt, Option<PeerRecoveryProbeEvent>)>|
            {
                &&& #[trigger] claimed.send_claimed(&before.state, peer, now, before.ids, after.ids, r)
                &&& match r {
                    None => {
                        &&& after.state == claimed
                        &&& after.budgets == before.budgets
                        &&& after.stats == before.stats
                        &&& after.out.attempts@ == before.out.attempts@
                        &&& after.out.permits@ == before.out.permits@
                        &&& after.out.indirect_probes@ == before.out.indirect_probes@
                        &&& after.out.critical_hard_errors@ == before.out.critical_hard_errors@
                        &&& after.out.critical_cooling@ == (if ctx.critical() {
                            before.out.critical_cooling@.push(peer)
                        } else {
                            before.out.critical_cooling@
                        })
                    },
                    Some((attempt, event)) => claim_settled(ctx, before, claimed, after, attempt, event, now),
                }
            }
    }
}

/// A round of claims: one peer after the other.
pub open spec fn claim_round(
    ctx: SendContext,
    before: SendWorld,
    after: SendWorld,
    peers: Seq<PeerId>,
    now: Instant,
) -> bool
    decreases peers.len(),
{
    if peers.len() == 0 {
        &&& after.state == before.state
        &&& after.budgets == before.budgets
        &&& after.stats == before.stats
        &&& after.ids == before.ids
        &&& after.out.same(&before.out)
    } else {
        exists|middle: SendWorld|
            {
                &&& claim_round(ctx, before, middle, peers.drop_last(), now)
                &&& #[trigger] claim_step(ctx, middle, after, peers.last(), now)
            }
    }
}

/// Every send that goes out has its permit.
pub open spec fn permits_match(out: ClaimOutcome) -> bool {
    &&& out.attempts@.len() == out.permits@.len()
    &&& forall|i: int| 0 <= i < out.attempts@.len() ==> (#[trigger] out.permits@[i]).peer == out.attempts@[i].peer
}

/// Reports a suppression.
fn report_suppression(
    ctx: &SendContext,
    stats: &mut PubSubStageStats,
    peer: PeerId,
    suppression: Option<PeerSuppressionEvent>,
)
    requires
        old(stats).wf(),
    ensures
        final(stats).wf(),
        suppression_reported(*final(stats), *old(stats), *ctx, peer, suppression, false),
{
    if let Some(event) = suppression {
        stats.record_peer_suppressed(
            ctx.topic,
            peer,
            event.suppressed_until,
            event.recent_timeout_count,
            event.cooldown,
            ctx.unix_now_ms,
        );
        if event.demoted {
            stats.message_kinds.record_prune();
        }
    }
}

/// The queue of critical sends to a peer is full.
fn record_critical_gate_overflow_for_state(
    ctx: &SendContext,
    state: &mut TopicState,
    stats: &mut PubSubStageStats,
    attempt: PeerSendAttempt,
    now: Instant,
)
    requires
        ctx.wf(),
        old(state).wf(),
        old(stats).wf(),
        now.can_advance(ctx.cooling_config.max),
    ensures
        final(state).wf(),
        final(stats).wf(),
        ({
            let effect = old(state).overflow_effect(attempt, now, ctx.health_of(attempt.peer), ctx.cooling_config);
            let outcome = old(state).outcome_of(attempt, now, effect);
            &&& final(state).after_overflow(old(state), attempt, now, effect)
            &&& suppression_reported(*final(stats), *old(stats), *ctx, attempt.peer, outcome.suppression, true)
        }),
{
    stats.record_outbound_budget_exhausted();
    let health = ctx.peer_health(&attempt.peer);
    let outcome = state.record_critical_gate_overflow_with_context_at(attempt, now, health, ctx.cooling_config);
    report_suppression(ctx, stats, attempt.peer, outcome.suppression);
}

/// A send to a peer was refused for want of a permit; says whether the membership layer should
/// look at the peer.
fn record_outbound_budget_pressure_for_state(
    ctx: &SendContext,
    state: &mut TopicState,
    stats: &mut PubSubStageStats,
    attempt: PeerSendAttempt,
    now: Instant,
) -> (r: bool)
    requires
        ctx.wf(),
        old(state).wf(),
        old(stats).wf(),
        now.can_advance(ctx.cooling_config.max),
    ensures
        final(state).wf(),
        final(stats).wf(),
        ({
            let effect = old(state).timeout_effect(
                attempt,
                now,
                Some(ctx.cooling_config),
                ctx.health_of(attempt.peer),
            );
            let outcome = old(state).outcome_of(attempt, now, effect);
            &&& r == outcome.request_indirect_probe
            &&& final(state).after_timeout(old(state), attempt, now, effect)
            &&& suppression_reported(*final(stats), *old(stats), *ctx, attempt.peer, outcome.suppression, true)
        }),
{
    stats.record_outbound_budget_exhausted();
    let health = ctx.peer_health(&attempt.peer);
    let outcome = state.record_send_timeout_with_context_at(attempt, now, health, ctx.cooling_config);
    report_suppression(ctx, stats, attempt.peer, outcome.suppression);
    outcome.request_indirect_probe
}

/// Asks for a send to one peer.
fn claim_one(
    ctx: &SendContext,
    state: &mut TopicState,
    budgets: &mut PeerOutboundBudgets,
    stats: &mut PubSubStageStats,
    ids: &mut ProbeIds,
    out: &mut ClaimOutcome,
    peer: PeerId,
    now: Instant,
)
    requires
        ctx.wf(),
        old(state).wf(),
        old(budgets).wf(),
        old(stats).wf(),
        now.can_advance(ctx.cooling_config.max),
        permits_match(*old(out)),
    ensures
        final(state).wf(),
        final(budgets).wf(),
        final(stats).wf(),
        permits_match(*final(out)),
        claim_step(
            *ctx,
            (SendWorld { state: *old(state), budgets: *old(budgets), stats: *old(stats), ids: *old(ids), out: *old(out) }),
            (SendWorld {
                state: *final(state),
                budgets: *final(budgets),
                stats: *final(stats),
                ids: *final(ids),
                out: *final(out),
            }),
            peer,
            now,
        ),
{
    if ctx.peer_is_transport_disconnected(&peer) {
        return ;
    }
    let class = OutboundSendClass::for_op(ctx.op);
    let critical = class == OutboundSendClass::Data && ctx.priority == TopicPriority::Critical;
    let ghost before = SendWorld {
        state: *state,
        budgets: *budgets,
        stats: *stats,
        ids: *ids,
        out: *out,
    };
    let claim = state.claim_send_attempt_at(peer, now, ids);
    let ghost claimed = *state;
    match claim {
        None => {
            if critical {
                out.critical_cooling.push(peer);
            }
            proof {
                let after = SendWorld { state: *state, budgets: *budgets, stats: *stats, ids: *ids, out: *out };
                assert(claimed.send_claimed(&before.state, peer, now, before.ids, after.ids, claim));
                assert(claim_step(*ctx, before, after, peer, now));
            }
        },
        Some((attempt, event)) => {
            if attempt.kind == SendAttemptKind::RecoveryProbe {
                let mut score = match state.peer_scores.get(&peer) {
                    Some(score) => *score,
                    None => PeerScore::new_at(now),
                };
                score.record_recovery_probe_at(now);
                state.peer_scores.insert(peer, score);
            }
            if attempt.kind == SendAttemptKind::CooldownBypass {
                stats.record_cooldown_bypass_probe();
            }
            if let Some(e) = event {
                stats.record_peer_recovery_probe(
                    ctx.topic,
                    peer,
                    e.suppressed_until,
                    e.recent_timeout_count,
                    e.cooldown,
                    ctx.unix_now_ms,
                );
            }
            let ghost noted = *state;
            let ghost reported = *stats;
            let permit = budgets.try_acquire(peer, class, ctx.priority, now);
            proof {
                assert(probe_noted(noted, claimed, attempt, now));
                assert(claim_reported(reported, before.stats, *ctx, attempt, event));
                assert(budgets.acquired(&before.budgets, attempt.peer, ctx.class(), ctx.priority, now, permit));
            }
            match permit {
                Some(p) => {
                    out.attempts.push(attempt);
                    out.permits.push(p);
                },
                None => {
                    if critical {
                        out.critical_hard_errors.push(peer);
                        record_critical_gate_overflow_for_state(ctx, state, stats, attempt, now);
                    } else {
                        if record_outbound_budget_pressure_for_state(ctx, state, stats, attempt, now) {
                            out.indirect_probes.push(peer);
                        }
                    }
                },
            }
            proof {
                let after = SendWorld { state: *state, budgets: *budgets, stats: *stats, ids: *ids, out: *out };
                assert(after.budgets.acquired(&before.budgets, attempt.peer, ctx.class(), ctx.priority, now, permit));
                if permit is None {
                    assert(refusal_recorded(
                        *ctx,
                        SendWorld { state: noted, stats: reported, ..before },
                        after,
                        attempt,
                        now,
                    ));
                }
                assert(claim_settled(*ctx, before, claimed, after, attempt, event, now));
                assert(claimed.send_claimed(&before.state, peer, now, before.ids, after.ids, claim));
                assert(claim_step(*ctx, before, after, peer, now));
            }
        },
    }
}

/// Asks for a send to each of some peers.
pub fn claim_topic_send_attempts_for_state(
    ctx: &SendContext,
    state: &mut TopicState,
    budgets: &mut PeerOutboundBudgets,
    stats: &mut PubSubStageStats,
    ids: &mut ProbeIds,
    peers: &Vec<PeerId>,
    now: Instant,
) -> (out: ClaimOutcome)
    requires
        ctx.wf(),
        old(state).wf(),
        old(budgets).wf(),
        old(stats).wf(),
        now.can_advance(ctx.cooling_config.max),
    ensures
        final(state).wf(),
        final(budgets).wf(),
        final(stats).wf(),
        permits_match(out),
        exists|start: ClaimOutcome|
            {
                &&& start.attempts@.len() == 0 && start.permits@.len() == 0 && start.indirect_probes@.len() == 0
                &&& start.critical_hard_errors@.len() == 0 && start.critical_cooling@.len() == 0
                &&& #[trigger] claim_round(
                    *ctx,
                    (SendWorld {
                        state: *old(state),
                        budgets: *old(budgets),
                        stats: *old(stats),
                        ids: *old(ids),
                        out: start,
                    }),
                    (SendWorld {
                        state: *final(state),
                        budgets: *final(budgets),
                        stats: *final(stats),
                        ids: *final(ids),
                        out,
                    }),
                    peers@,
                    now,
                )
            },
{
    let mut out = ClaimOutcome::new();
    let ghost start = SendWorld { state: *state, budgets: *budgets, stats: *stats, ids: *ids, out };
    let mut i: usize = 0;
    assert(peers@.take(0) =~= Seq::empty());
    while i < peers.len()
        invariant
            i <= peers@.len(),
            ctx.wf(),
            state.wf(),
            budgets.wf(),
            stats.wf(),
            now.can_advance(ctx.cooling_config.max),
            permits_match(out),
            claim_round(
                *ctx,
                start,
                (SendWorld { state: *state, budgets: *budgets, stats: *stats, ids: *ids, out }),
                peers@.take(i as int),
                now,
            ),
        decreases peers@.len() - i,
    {
        let ghost middle = SendWorld { state: *state, budgets: *budgets, stats: *stats, ids: *ids, out };
        claim_one(ctx, state, budgets, stats, ids, &mut out, peers[i], now);
        proof {
            let next = peers@.take(i + 1);
            assert(next.drop_last() =~= peers@.take(i as int));
            assert(next.last() == peers@[i as int]);
            let after = SendWorld { state: *state, budgets: *budgets, stats: *stats, ids: *ids, out };
            assert(claim_round(*ctx, start, middle, next.drop_last(), now));
            assert(claim_step(*ctx, middle, after, next.last(), now));
            assert(claim_round(*ctx, start, after, next, now));
        }
        i = i + 1;
    }
    assert(peers@.take(peers@.len() as int) =~= peers@);
    out
}

/// Every send that a round lets out goes to one of its peers, and to none that is known not to be
/// connected.
pub proof fn sends_go_to_connected_peers(
    ctx: SendContext,
    before: SendWorld,
    after: SendWorld,
    peers: Seq<PeerId>,
    now: Instant,
)
    requires
        before.out.attempts@.len() == 0,
        claim_round(ctx, before, after, peers, now),
    ensures
        after.out.attempts@.len() <= peers.len(),
        forall|i: int|
            0 <= i < after.out.attempts@.len() ==> peers.contains((#[trigger] after.out.attempts@[i]).peer)
                && !ctx.disconnected(after.out.attempts@[i].peer),
    decreases peers.len(),
{
    if peers.len() > 0 {
        let middle = choose|middle: SendWorld|
            {
                &&& claim_round(ctx, before, middle, peers.drop_last(), now)
                &&& #[trigger] claim_step(ctx, middle, after, peers.last(), now)
            };
        sends_go_to_connected_peers(ctx, before, middle, peers.drop_last(), now);
        let old_attempts = middle.out.attempts@;
        assert forall|i: int| 0 <= i < after.out.attempts@.len() implies peers.contains(
            (#[trigger] after.out.attempts@[i]).peer,
        ) && !ctx.disconnected(after.out.attempts@[i].peer) by {
            if i < old_attempts.len() {
                assert(after.out.attempts@[i] == old_attempts[i]);
                let j = peers.drop_last().index_of(old_attempts[i].peer);
                assert(peers[j] == old_attempts[i].peer);
            } else {
                assert(peers[peers.len() - 1] == peers.last());
            }
        }
    }
}

/// A send that goes out to a cooling peer is one of the rare ones, and after the cooldown it is the
/// recovery probe.
pub proof fn sends_respect_cooling(ctx: SendContext, before: SendWorld, after: SendWorld, peer: PeerId, now: Instant)
    requires
        claim_step(ctx, before, after, peer, now),
        after.out.attempts@.len() == before.out.attempts@.len() + 1,
        before.state.peer_cooling@.dom().contains(peer) ==> before.state.peer_cooling@[peer].coherent(),
    ensures
        ({
            let attempt = after.out.attempts@.last();
            &&& attempt.peer == peer
            &&& attempt.kind == SendAttemptKind::Normal <==> !before.state.peer_suppressed(peer, now)
            &&& attempt.kind == SendAttemptKind::CooldownBypass ==> before.state.peer_cooling@[peer].cooling(now)
                && before.state.peer_cooling@[peer].bypass_ready(now)
            &&& attempt.kind == SendAttemptKind::RecoveryProbe ==> before.state.peer_cooling@[peer].expired(now)
                && !before.state.peer_cooling@[peer].recovery_probe_in_flight
        }),
{
}

/// A critical send for which there is no place cools the peer at once, whether the peer was in use
/// or about to be probed: it is suppressed from now on and no longer eager, no probe is left in
/// flight, and all of it is counted and reported.
pub proof fn refused_critical_sends_cool_at_once(
    ctx: SendContext,
    before: SendWorld,
    after: SendWorld,
    peer: PeerId,
    now: Instant,
)
    requires
        claim_step(ctx, before, after, peer, now),
        now.can_advance(ctx.cooling_config.max),
        ctx.critical(),
        !ctx.disconnected(peer),
        before.budgets.exhausted(peer, ctx.class(), ctx.priority, now),
        before.state.peer_cooling@.dom().contains(peer) ==> !before.state.peer_cooling@[peer].cooling(now)
            && !before.state.peer_cooling@[peer].recovery_probe_in_flight,
    ensures
        after.out.attempts@ == before.out.attempts@,
        after.out.permits@ == before.out.permits@,
        after.out.critical_hard_errors@ == before.out.critical_hard_errors@.push(peer),
        after.state.peer_cooling@.dom().contains(peer),
        !after.state.peer_cooling@[peer].recovery_probe_in_flight,
        after.state.peer_cooling@[peer].suppressed_until is Some,
        after.state.peer_cooling@[peer].suppressed_until->0.nanos == now.nanos
            + after.state.peer_cooling@[peer].cooldown.nanos,
        after.state.peer_cooling@[peer].last_suppression_timeout_count == OUTBOUND_CRITICAL_QUEUE_PER_PEER,
        ctx.cooling_config.initial.nanos > 0 && ctx.cooling_config.max.nanos > 0
            ==> after.state.peer_cooling@[peer].cooling(now),
        !after.state.eager_peers@.contains(peer),
        after.stats.outbound_budget_exhausted == before.stats.outbound_budget_exhausted.wrapping_add(1),
        after.stats.message_kinds.prune == (if before.state.eager_peers@.contains(peer) {
            before.stats.message_kinds.prune.wrapping_add(1)
        } else {
            before.stats.message_kinds.prune
        }),
        after.stats.suppressed_peers@.dom().contains(SuppressedPeerKey { topic: ctx.topic, peer }),
        !after.stats.suppressed_peers@[SuppressedPeerKey { topic: ctx.topic, peer }].recovery_probe_in_flight,
{
    let cooling = cooling_or_new(before.state.peer_cooling@, peer, now);
    let config = ctx.cooling_config;
    assert(config.initial.nanos > 0 && config.max.nanos > 0 ==> config.next(cooling.cooldown).nanos > 0
        && config.on_dead(cooling.cooldown).nanos > 0) by {
        assert(cooling.cooldown.nanos * config.factor() >= cooling.cooldown.nanos) by (nonlinear_arith)
            requires
                config.factor() >= 1,
        ;
    }
    crate::timing::cooldown_never_exceeds_max(config, cooling.cooldown);
}

/// A recovery probe that is marked as in flight goes out: there is none that nobody settles.
pub proof fn probes_in_flight_go_out(ctx: SendContext, before: SendWorld, after: SendWorld, peer: PeerId, now: Instant)
    requires
        claim_step(ctx, before, after, peer, now),
        before.state.peer_cooling@.dom().contains(peer) ==> !before.state.peer_cooling@[peer].recovery_probe_in_flight,
        after.state.peer_cooling@.dom().contains(peer),
        after.state.peer_cooling@[peer].recovery_probe_in_flight,
    ensures
        after.out.attempts@.len() == before.out.attempts@.len() + 1,
        after.out.attempts@.last() == (PeerSendAttempt {
            peer,
            kind: SendAttemptKind::RecoveryProbe,
            recovery_probe_id: after.state.peer_cooling@[peer].recovery_probe_id,
        }),
        after.state.peer_cooling@[peer].owns_probe(after.out.attempts@.last().recovery_probe_id),
{
}

/// What a send without a topic touches.
pub struct BareWorld {
    pub budgets: PeerOutboundBudgets,
    pub stats: PubSubStageStats,
    pub out: ClaimOutcome,
}

/// What asking for a send to one peer does where there is no topic, and so no cooling.
pub open spec fn bare_step(ctx: SendContext, before: BareWorld, after: BareWorld, peer: PeerId, now: Instant) -> bool {
    if ctx.disconnected(peer) {
        &&& after.budgets == before.budgets
        &&& after.stats == before.stats
        &&& after.out.same(&before.out)
    } else {
        &&& after.out.indirect_probes@ == before.out.indirect_probes@
        &&& after.out.critical_cooling@ == before.out.critical_cooling@
        &&& exists|permit: Option<OutboundSendPermit>|
            {
                &&& #[trigger] after.budgets.acquired(&before.budgets, peer, ctx.class(), ctx.priority, now, permit)
                &&& match permit {
                    Some(p) => {
                        &&& after.stats == before.stats
                        &&& after.out.attempts@ == before.out.attempts@.push(
                            PeerSendAttempt { peer, kind: SendAttemptKind::Normal, recovery_probe_id: None },
                        )
                        &&& after.out.permits@ == before.out.permits@.push(p)
                        &&& after.out.critical_hard_errors@ == before.out.critical_hard_errors@
                    },
                    None => {
                        &&& after.stats == (PubSubStageStats {
                            outbound_budget_exhausted: before.stats.outbound_budget_exhausted.wrapping_add(1),
                            ..before.stats
                        })
                        &&& after.out.attempts@ == before.out.attempts@
                        &&& after.out.permits@ == before.out.permits@
                        &&& after.out.critical_hard_errors@ == (if ctx.critical() {
                            before.out.critical_hard_errors@.push(peer)
                        } else {
                            before.out.critical_hard_errors@
                        })
                    },
                }
            }
    }
}

/// A round of claims without a topic: one peer after the other.
pub open spec fn bare_round(ctx: SendContext, before: BareWorld, after: BareWorld, peers: Seq<PeerId>, now: Instant) -> bool
    decreases peers.len(),
{
    if peers.len() == 0 {
        &&& after.budgets == before.budgets
        &&& after.stats == before.stats
        &&& after.out.same(&before.out)
    } else {
        exists|middle: BareWorld|
            {
                &&& bare_round(ctx, before, middle, peers.drop_last(), now)
                &&& #[trigger] bare_step(ctx, middle, after, peers.last(), now)
            }
    }
}

/// Asks for a send to each of some peers where there is no topic.
pub fn claim_send_attempts_without_topic(
    ctx: &SendContext,
    budgets: &mut PeerOutboundBudgets,
    stats: &mut PubSubStageStats,
    peers: &Vec<PeerId>,
    now: Instant,
) -> (out: ClaimOutcome)
    requires
        ctx.wf(),
        old(budgets).wf(),
        old(stats).wf(),
    ensures
        final(budgets).wf(),
        final(stats).wf(),
        permits_match(out),
        exists|start: ClaimOutcome|
            {
                &&& start.attempts@.len() == 0 && start.permits@.len() == 0 && start.indirect_probes@.len() == 0
                &&& start.critical_hard_errors@.len() == 0 && start.critical_cooling@.len() == 0
                &&& #[trigger] bare_round(
                    *ctx,
                    (BareWorld { budgets: *old(budgets), stats: *old(stats), out: start }),
                    (BareWorld { budgets: *final(budgets), stats: *final(stats), out }),
                    peers@,
                    now,
                )
            },
{
    let class = OutboundSendClass::for_op(ctx.op);
    let critical = class == OutboundSendClass::Data && ctx.priority == TopicPriority::Critical;
    let mut out = ClaimOutcome::new();
    let ghost start = BareWorld { budgets: *budgets, stats: *stats, out };
    let mut i: usize = 0;
    assert(peers@.take(0) =~= Seq::empty());
    while i < peers.len()
        invariant
            i <= peers@.len(),
            ctx.wf(),
            budgets.wf(),
            stats.wf(),
            class == ctx.class(),
            critical == ctx.critical(),
            permits_match(out),
            bare_round(
                *ctx,
                start,
                (BareWorld { budgets: *budgets, stats: *stats, out }),
                peers@.take(i as int),
                now,
            ),
        decreases peers@.len() - i,
    {
        let ghost middle = BareWorld { budgets: *budgets, stats: *stats, out };
        let peer = peers[i];
        if !ctx.peer_is_transport_disconnected(&peer) {
            let permit = budgets.try_acquire(peer, class, ctx.priority, now);
            match permit {
                Some(p) => {
                    out.attempts.push(
                        PeerSendAttempt { peer, kind: SendAttemptKind::Normal, recovery_probe_id: None },
                    );
                    out.permits.push(p);
                },
                None => {
                    stats.record_outbound_budget_exhausted();
                    if critical {
                        out.critical_hard_errors.push(peer);
                    }
                },
            }
            proof {
                let after = BareWorld { budgets: *budgets, stats: *stats, out };
                assert(after.budgets.acquired(&middle.budgets, peer, ctx.class(), ctx.priority, now, permit));
                assert(bare_step(*ctx, middle, after, peer, now));
            }
        }
        proof {
            let next = peers@.take(i + 1);
            assert(next.drop_last() =~= peers@.take(i as int));
            assert(next.last() == peers@[i as int]);
            let after = BareWorld { budgets: *budgets, stats: *stats, out };
            assert(bare_step(*ctx, middle, after, next.last(), now));
            assert(bare_round(*ctx, start, after, next, now));
        }
        i = i + 1;
    }
    assert(peers@.take(peers@.len() as int) =~= peers@);
    out
}

/// A peer that is connected, not suppressed and within its budget is sent to, and nothing else
/// comes of it.
pub proof fn free_peers_are_sent_to(ctx: SendContext, before: SendWorld, after: SendWorld, peer: PeerId, now: Instant)
    requires
        claim_step(ctx, before, after, peer, now),
        ctx.connected is Some ==> ctx.connected->0@.contains(peer),
        before.state.peer_cooling@.dom().contains(peer) ==> before.state.peer_cooling@[peer].suppressed_until is None,
        !before.budgets.exhausted(peer, ctx.class(), ctx.priority, now),
    ensures
        after.out.attempts@ == before.out.attempts@.push(
            PeerSendAttempt { peer, kind: SendAttemptKind::Normal, recovery_probe_id: None },
        ),
        after.out.permits@.len() == before.out.permits@.len() + 1,
        after.out.permits@.last().peer == peer,
        after.out.permits@.drop_last() == before.out.permits@,
        after.budgets.acquired(
            &before.budgets,
            peer,
            ctx.class(),
            ctx.priority,
            now,
            Some(after.out.permits@.last()),
        ),
        after.out.indirect_probes@ == before.out.indirect_probes@,
        after.out.critical_hard_errors@ == before.out.critical_hard_errors@,
        after.out.critical_cooling@ == before.out.critical_cooling@,
        after.state.eager_peers@ == before.state.eager_peers@,
        after.state.lazy_peers@ == before.state.lazy_peers@,
        after.state.peer_cooling@ == before.state.peer_cooling@,
        after.state.peer_scores@ == before.state.peer_scores@,
        after.stats.suppressed_peers@ == before.stats.suppressed_peers@,
        after.stats.outbound_budget_exhausted == before.stats.outbound_budget_exhausted,
        after.ids == before.ids,
{
    assert(after.out.permits@.drop_last() =~= before.out.permits@);
    assert(after.state.peer_cooling@ =~= before.state.peer_cooling@);
}

/// A peer that is known not to be connected is passed over, and nothing changes.
pub proof fn disconnected_peers_are_passed_over(
    ctx: SendContext,
    before: SendWorld,
    after: SendWorld,
    peer: PeerId,
    now: Instant,
)
    requires
        claim_step(ctx, before, after, peer, now),
        ctx.connected is Some && !ctx.connected->0@.contains(peer),
    ensures
        after.state == before.state,
        after.budgets == before.budgets,
        after.stats == before.stats,
        after.ids == before.ids,
        after.out.attempts@ == before.out.attempts@,
        after.out.permits@ == before.out.permits@,
{
}

/// What comes of a peer whose cooldown runs, or has run out, where it is within its budget: in the
/// first case a send an interval after the last, in the second one probe; else nothing.
pub proof fn suppressed_peers_are_sent_to_rarely(
    ctx: SendContext,
    before: SendWorld,
    after: SendWorld,
    peer: PeerId,
    now: Instant,
)
    requires
        claim_step(ctx, before, after, peer, now),
        ctx.connected is Some ==> ctx.connected->0@.contains(peer),
        before.state.peer_cooling@.dom().contains(peer),
        before.state.peer_cooling@[peer].suppressed_until is Some,
        !before.budgets.exhausted(peer, ctx.class(), ctx.priority, now),
    ensures
        ({
            let state = before.state.peer_cooling@[peer];
            let key = SuppressedPeerKey { topic: ctx.topic, peer };
            let runs = state.suppressed_until->0.nanos > now.nanos;
            let quiet = state.last_bypass_probe_at is None || now.nanos >= state.last_bypass_probe_at->0.nanos
                + crate::config::PEER_COOLDOWN_BYPASS_MIN_INTERVAL_SECS * crate::time::NANOS_PER_SEC;
            &&& state.recovery_probe_in_flight || (runs && !quiet) ==> {
                &&& after.out.attempts@ == before.out.attempts@
                &&& after.out.permits@ == before.out.permits@
                &&& after.state.peer_cooling@ == before.state.peer_cooling@
                &&& ctx.critical() ==> after.out.critical_cooling@ == before.out.critical_cooling@.push(peer)
            }
            &&& runs && quiet && !state.recovery_probe_in_flight ==> {
                &&& after.out.attempts@ == before.out.attempts@.push(
                    PeerSendAttempt { peer, kind: SendAttemptKind::CooldownBypass, recovery_probe_id: None },
                )
                &&& after.stats.cooldown_bypass_probes == before.stats.cooldown_bypass_probes.wrapping_add(1)
                &&& after.state.peer_cooling@[peer].last_bypass_probe_at == Some(now)
            }
            &&& !runs && !state.recovery_probe_in_flight ==> {
                &&& after.out.attempts@ == before.out.attempts@.push(
                    PeerSendAttempt {
                        peer,
                        kind: SendAttemptKind::RecoveryProbe,
                        recovery_probe_id: Some(before.ids.next),
                    },
                )
                &&& after.stats.suppressed_peers@.dom().contains(key)
                &&& after.stats.suppressed_peers@[key].recovery_probe_in_flight
                &&& after.stats.suppressed_peers@[key].last_suppressed_unix_ms == ctx.unix_now_ms
                &&& after.state.peer_scores@.dom().contains(peer)
                &&& after.state.peer_scores@[peer].recovery_probes.events > 0
                &&& after.ids.next != before.ids.next
            }
        }),
{
    assert(before.state.peer_cooling@[peer].claim(now, before.ids) is None ==> after.state.peer_cooling@
        =~= before.state.peer_cooling@);
}

/// A send without a permit does not go out, and counts: as refused, and against a peer that is in
/// use as one more timeout.
pub proof fn refused_sends_count_as_timeouts(
    ctx: SendContext,
    before: SendWorld,
    after: SendWorld,
    peer: PeerId,
    now: Instant,
)
    requires
        claim_step(ctx, before, after, peer, now),
        ctx.connected is Some ==> ctx.connected->0@.contains(peer),
        !ctx.critical(),
        before.state.peer_cooling@.dom().contains(peer),
        before.state.peer_cooling@[peer].suppressed_until is None,
        !before.state.peer_cooling@[peer].recovery_probe_in_flight,
        before.state.peer_cooling@[peer].timeout_count + 1 < crate::config::PEER_TIMEOUT_THRESHOLD,
        now.nanos <= before.state.peer_cooling@[peer].timeout_window_started.nanos
            + crate::config::PEER_TIMEOUT_WINDOW_SECS * crate::time::NANOS_PER_SEC,
        ctx.health@.dom().contains(peer) ==> ctx.health@[peer] != PeerHealth::Dead,
        before.budgets.exhausted(peer, ctx.class(), ctx.priority, now),
    ensures
        after.out.attempts@ == before.out.attempts@,
        after.out.permits@ == before.out.permits@,
        after.stats.outbound_budget_exhausted == before.stats.outbound_budget_exhausted.wrapping_add(1),
        after.stats.suppressed_peers@ == before.stats.suppressed_peers@,
        after.state.peer_cooling@.dom().contains(peer),
        after.state.peer_cooling@[peer].timeout_count == before.state.peer_cooling@[peer].timeout_count + 1,
        after.state.peer_cooling@[peer].suppressed_until is None,
        after.state.eager_peers@ == before.state.eager_peers@,
{
}

/// A round leaves no one out: where all peers are different, connected, not suppressed and within
/// their budgets, each of them is sent to, in their order.
pub proof fn rounds_leave_no_one_out(
    ctx: SendContext,
    before: SendWorld,
    after: SendWorld,
    peers: Seq<PeerId>,
    now: Instant,
)
    requires
        claim_round(ctx, before, after, peers, now),
        peers.no_duplicates(),
        forall|i: int| 0 <= i < peers.len() && ctx.connected is Some ==> ctx.connected->0@.contains(#[trigger] peers[i]),
        forall|i: int|
            0 <= i < peers.len() && before.state.peer_cooling@.dom().contains(#[trigger] peers[i])
                ==> before.state.peer_cooling@[peers[i]].suppressed_until is None,
        forall|i: int|
            0 <= i < peers.len() ==> !before.budgets.exhausted(#[trigger] peers[i], ctx.class(), ctx.priority, now),
    ensures
        after.out.attempts@ == before.out.attempts@ + Seq::new(
            peers.len(),
            |i: int| PeerSendAttempt { peer: peers[i], kind: SendAttemptKind::Normal, recovery_probe_id: None },
        ),
        after.state.peer_cooling@ == before.state.peer_cooling@,
        forall|other: PeerId|
            !peers.contains(other) ==> #[trigger] after.budgets.exhausted(other, ctx.class(), ctx.priority, now)
                == before.budgets.exhausted(other, ctx.class(), ctx.priority, now),
    decreases peers.len(),
{
    if peers.len() == 0 {
        assert(after.out.attempts@ =~= before.out.attempts@ + Seq::new(
            peers.len(),
            |i: int| PeerSendAttempt { peer: peers[i], kind: SendAttemptKind::Normal, recovery_probe_id: None },
        ));
    } else {
        let rest = peers.drop_last();
        let last = peers.last();
        let middle = choose|middle: SendWorld|
            {
                &&& claim_round(ctx, before, middle, rest, now)
                &&& #[trigger] claim_step(ctx, middle, after, last, now)
            };
        assert forall|i: int| 0 <= i < rest.len() implies #[trigger] rest[i] == peers[i] by {}
        assert(!rest.contains(last)) by {
            if rest.contains(last) {
                let i = rest.index_of(last);
                assert(peers[i] == peers[peers.len() - 1]);
            }
        }
        rounds_leave_no_one_out(ctx, before, middle, rest, now);
        assert(peers[peers.len() - 1] == last);
        free_peers_are_sent_to(ctx, middle, after, last, now);
        assert(after.out.attempts@ =~= before.out.attempts@ + Seq::new(
            peers.len(),
            |i: int| PeerSendAttempt { peer: peers[i], kind: SendAttemptKind::Normal, recovery_probe_id: None },
        ));
        assert forall|other: PeerId| !peers.contains(other) implies #[trigger] after.budgets.exhausted(
            other,
            ctx.class(),
            ctx.priority,
            now,
        ) == before.budgets.exhausted(other, ctx.class(), ctx.priority, now) by {
            assert(!rest.contains(other)) by {
                if rest.contains(other) {
                    let i = rest.index_of(other);
                    assert(peers[i] == other);
                }
            }
            assert(other != last) by {
                if other == last {
                    assert(peers[peers.len() - 1] == other);
                }
            }
            lemma_step_budgets(ctx, middle, after, last, now, other);
            assert(middle.budgets.exhausted(other, ctx.class(), ctx.priority, now) == before.budgets.exhausted(
                other,
                ctx.class(),
                ctx.priority,
                now,
            ));
        }
    }
}

proof fn lemma_step_budgets(
    ctx: SendContext,
    before: SendWorld,
    after: SendWorld,
    peer: PeerId,
    now: Instant,
    other: PeerId,
)
    requires
        claim_step(ctx, before, after, peer, now),
        other != peer,
    ensures
        after.budgets.exhausted(other, ctx.class(), ctx.priority, now) == before.budgets.exhausted(
            other,
            ctx.class(),
            ctx.priority,
            now,
        ),
{
    if after.budgets != before.budgets {
        let permit = choose|permit: Option<OutboundSendPermit>| #[trigger]
            after.budgets.acquired(&before.budgets, peer, ctx.class(), ctx.priority, now, permit);
        crate::budget::peers_do_not_share_a_budget(
            before.budgets,
            after.budgets,
            peer,
            ctx.class(),
            ctx.priority,
            now,
            permit,
            other,
            ctx.class(),
            ctx.priority,
        );
    }
}

/// Without a topic a peer that is connected and within its budget is sent to, one that is not
/// connected is passed over, and one without a budget is refused and counted.
pub proof fn sends_without_a_topic_go_by_the_budget(
    ctx: SendContext,
    before: BareWorld,
    after: BareWorld,
    peer: PeerId,
    now: Instant,
)
    requires
        bare_step(ctx, before, after, peer, now),
    ensures
        ({
            let away = ctx.connected is Some && !ctx.connected->0@.contains(peer);
            let full = before.budgets.exhausted(peer, ctx.class(), ctx.priority, now);
            &&& away ==> after.out.attempts@ == before.out.attempts@ && after.budgets == before.budgets && after.stats
                == before.stats
            &&& !away && !full ==> after.out.attempts@ == before.out.attempts@.push(
                PeerSendAttempt { peer, kind: SendAttemptKind::Normal, recovery_probe_id: None },
            ) && after.out.permits@.len() == before.out.permits@.len() + 1 && after.out.permits@.last().peer == peer
            &&& !away && full ==> after.out.attempts@ == before.out.attempts@ && after.out.permits@
                == before.out.permits@ && after.stats.outbound_budget_exhausted
                == before.stats.outbound_budget_exhausted.wrapping_add(1)
            &&& !away && full && ctx.critical() ==> after.out.critical_hard_errors@
                == before.out.critical_hard_errors@.push(peer)
        }),
{
}

/// What is reported of a suppression: the peer on the topic, with the end, the timeouts and the
/// cooldown of it, and the time; a demotion and a refusal count once.
pub proof fn suppressions_are_reported_as_they_are(
    after: PubSubStageStats,
    before: PubSubStageStats,
    ctx: SendContext,
    peer: PeerId,
    suppression: Option<PeerSuppressionEvent>,
    exhausted: bool,
    other: SuppressedPeerKey,
)
    requires
        suppression_reported(after, before, ctx, peer, suppression, exhausted),
        before.message_kinds.prune < u64::MAX,
        before.outbound_budget_exhausted < u64::MAX,
    ensures
        ({
            let key = SuppressedPeerKey { topic: ctx.topic, peer };
            let row = after.suppressed_peers@[key];
            let demoted = suppression is Some && suppression->0.demoted;
            &&& suppression is Some ==> {
                &&& after.suppressed_peers@.dom().contains(key)
                &&& row.suppressed_until == suppression->0.suppressed_until
                &&& row.recent_timeout_count == suppression->0.recent_timeout_count
                &&& row.cooldown == suppression->0.cooldown
                &&& row.last_suppressed_unix_ms == ctx.unix_now_ms
                &&& !row.recovery_probe_in_flight
            }
            &&& suppression is None ==> after.suppressed_peers@ == before.suppressed_peers@
            &&& other != key ==> after.suppressed_peers@.dom().contains(other) == before.suppressed_peers@.dom().contains(
                other,
            )
            &&& other != key && before.suppressed_peers@.dom().contains(other) ==> after.suppressed_peers@[other]
                == before.suppressed_peers@[other]
            &&& after.message_kinds.prune == before.message_kinds.prune + (if demoted { 1int } else { 0 })
            &&& after.message_kinds.graft == before.message_kinds.graft
            &&& after.outbound_budget_exhausted == before.outbound_budget_exhausted + (if exhausted {
                1int
            } else {
                0
            })
        }),
{
}

/// A refused send that would suppress a suspected peer has others asked about it instead.
pub proof fn suspected_peers_are_asked_about(
    ctx: SendContext,
    before: SendWorld,
    after: SendWorld,
    peer: PeerId,
    now: Instant,
)
    requires
        claim_step(ctx, before, after, peer, now),
        ctx.connected is Some ==> ctx.connected->0@.contains(peer),
        !ctx.critical(),
        before.state.peer_cooling@.dom().contains(peer),
        before.state.peer_cooling@[peer].suppressed_until is None,
        !before.state.peer_cooling@[peer].recovery_probe_in_flight,
        crate::config::PEER_TIMEOUT_THRESHOLD <= before.state.peer_cooling@[peer].timeout_count + 1 <= usize::MAX,
        now.nanos <= before.state.peer_cooling@[peer].timeout_window_started.nanos
            + crate::config::PEER_TIMEOUT_WINDOW_SECS * crate::time::NANOS_PER_SEC,
        ctx.health@.dom().contains(peer),
        ctx.health@[peer] == PeerHealth::Suspect,
        before.budgets.exhausted(peer, ctx.class(), ctx.priority, now),
    ensures
        after.out.indirect_probes@ == before.out.indirect_probes@.push(peer),
        after.out.attempts@ == before.out.attempts@,
        after.stats.suppressed_peers@ == before.stats.suppressed_peers@,
        after.state.peer_cooling@.dom().contains(peer),
        after.state.peer_cooling@[peer].suppressed_until is None,
        after.state.eager_peers@ == before.state.eager_peers@,
{
}

} // verus!
