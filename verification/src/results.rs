//! What the outcomes of a round of sends mean for the peers.

use vstd::prelude::*;

use crate::claims::{suppression_reported, SendContext};
use crate::cooling::{PeerSendAttempt, SendAttemptKind};
use crate::ids::{PeerId, TopicId};
use crate::stats::{PubSubStageStats, SuppressedPeerKey};
use crate::time::{Duration, Instant};
use crate::timing::{sample_ms, with_sample, PerPeerRttTracker};
use crate::topic::TopicState;

verus! {

/// A send that succeeded, and how long it took.
#[derive(Clone, Copy, Debug, PartialEq, Eq)]
pub struct PeerSendCompletion {
    pub attempt: PeerSendAttempt,
    pub observed: Duration,
}

/// How a send ended.
#[derive(Clone, Copy, Debug, PartialEq, Eq, Structural)]
pub enum PeerSendOutcome {
    Sent { observed: Duration },
    TimedOut,
    /// The transport gave an error.
    Failed,
    /// The send did not come to an end.
    Panicked,
}

/// The successful sends among some outcomes, latest first.
pub open spec fn completions(outcomes: Seq<(PeerSendAttempt, PeerSendOutcome)>) -> Seq<PeerSendCompletion>
    decreases outcomes.len(),
{
    if outcomes.len() == 0 {
        Seq::empty()
    } else {
        let rest = completions(outcomes.drop_first());
        match outcomes.first().1 {
            PeerSendOutcome::Sent { observed } => rest.push(
                PeerSendCompletion { attempt: outcomes.first().0, observed },
            ),
            _ => rest,
        }
    }
}

/// The sends among some outcomes that count as timed out, latest first. One that did not come to an
/// end counts only as a recovery probe.
pub open spec fn timeouts(outcomes: Seq<(PeerSendAttempt, PeerSendOutcome)>) -> Seq<PeerSendAttempt>
    decreases outcomes.len(),
{
    if outcomes.len() == 0 {
        Seq::empty()
    } else {
        let rest = timeouts(outcomes.drop_first());
        match outcomes.first().1 {
            PeerSendOutcome::Sent { .. } => rest,
            PeerSendOutcome::Panicked => if outcomes.first().0.kind == SendAttemptKind::RecoveryProbe {
                rest.push(outcomes.first().0)
            } else {
                rest
            },
            _ => rest.push(outcomes.first().0),
        }
    }
}

/// Parts the outcomes of a round into successes and timeouts, the last send first.
pub fn collect_results(outcomes: &Vec<(PeerSendAttempt, PeerSendOutcome)>) -> (r: (
    Vec<PeerSendCompletion>,
    Vec<PeerSendAttempt>,
))
    ensures
        r.0@ == completions(outcomes@),
        r.1@ == timeouts(outcomes@),
{
    let mut sent: Vec<PeerSendCompletion> = Vec::new();
    let mut timed_out: Vec<PeerSendAttempt> = Vec::new();
    let mut i: usize = outcomes.len();
    assert(outcomes@.skip(outcomes@.len() as int) =~= Seq::empty());
    while i > 0
        invariant
            i <= outcomes@.len(),
            sent@ == completions(outcomes@.skip(i as int)),
            timed_out@ == timeouts(outcomes@.skip(i as int)),
        decreases i,
    {
        i = i - 1;
        let (attempt, outcome) = outcomes[i];
        proof {
            let tail = outcomes@.skip(i as int);
            assert(tail.drop_first() =~= outcomes@.skip(i + 1));
            assert(tail.first() == outcomes@[i as int]);
        }
        match outcome {
            PeerSendOutcome::Sent { observed } => sent.push(PeerSendCompletion { attempt, observed }),
            PeerSendOutcome::Panicked => {
                if attempt.kind == SendAttemptKind::RecoveryProbe {
                    timed_out.push(attempt);
                }
            },
            _ => timed_out.push(attempt),
        }
    }
    assert(outcomes@.skip(0) =~= outcomes@);
    (sent, timed_out)
}

/// Whether a send is a recovery probe.
pub open spec fn is_probe() -> spec_fn(PeerSendAttempt) -> bool {
    |a: PeerSendAttempt| a.kind == SendAttemptKind::RecoveryProbe
}

/// The recovery probes among some sends: if the round is given up, they count as timed out.
pub fn cancelled_recovery_probes(attempts: &Vec<PeerSendAttempt>) -> (r: Vec<PeerSendAttempt>)
    ensures
        r@ == attempts@.filter(is_probe()),
{
    let mut r: Vec<PeerSendAttempt> = Vec::new();
    let mut i: usize = 0;
    proof {
        reveal(Seq::filter);
    }
    assert(r@ =~= attempts@.take(0).filter(is_probe()));
    while i < attempts.len()
        invariant
            i <= attempts@.len(),
            r@ == attempts@.take(i as int).filter(is_probe()),
        decreases attempts@.len() - i,
    {
        let attempt = attempts[i];
        proof {
            reveal(Seq::filter);
            assert(attempts@.take(i + 1).drop_last() =~= attempts@.take(i as int));
            assert(attempts@.take(i + 1).last() == attempt);
        }
        if attempt.kind == SendAttemptKind::RecoveryProbe {
            r.push(attempt);
        }
        i = i + 1;
    }
    assert(attempts@.take(attempts@.len() as int) =~= attempts@);
    r
}

/// A peer's samples after some successful sends.
pub open spec fn samples_after(samples: Seq<u32>, sent: Seq<PeerSendCompletion>, peer: PeerId) -> Seq<u32>
    decreases sent.len(),
{
    if sent.len() == 0 {
        samples
    } else {
        let rest = samples_after(samples, sent.drop_last(), peer);
        if sent.last().attempt.peer == peer { with_sample(rest, sample_ms(sent.last().observed)) } else { rest }
    }
}

/// Notes how long the successful sends took.
pub fn record_round_trips(tracker: &mut PerPeerRttTracker, sent: &Vec<PeerSendCompletion>)
    requires
        old(tracker).wf(),
    ensures
        final(tracker).wf(),
        forall|peer: PeerId| #[trigger]
            final(tracker).samples_of(peer) == samples_after(old(tracker).samples_of(peer), sent@, peer),
{
    let mut i: usize = 0;
    while i < sent.len()
        invariant
            i <= sent@.len(),
            tracker.wf(),
            forall|peer: PeerId| #[trigger]
                tracker.samples_of(peer) == samples_after(old(tracker).samples_of(peer), sent@.take(i as int), peer),
        decreases sent@.len() - i,
    {
        let completion = sent[i];
        proof {
            assert(sent@.take(i + 1).drop_last() =~= sent@.take(i as int));
            assert(sent@.take(i + 1).last() == completion);
        }
        tracker.record(completion.attempt.peer, completion.observed);
        i = i + 1;
    }
    assert(sent@.take(sent@.len() as int) =~= sent@);
}

/// All that the outcomes of a round touch.
pub struct ResultWorld {
    pub state: TopicState,
    pub stats: PubSubStageStats,
    /// Peers that the membership layer should look at.
    pub indirect_probes: Vec<PeerId>,
}

/// What one successful send does.
pub open spec fn success_step(
    ctx: SendContext,
    before: ResultWorld,
    after: ResultWorld,
    attempt: PeerSendAttempt,
    decayed_above: Duration,
    now: Instant,
) -> bool {
    &&& after.state.after_success(&before.state, attempt, now, ctx.cooling_config, decayed_above)
    &&& after.indirect_probes@ == before.indirect_probes@
    &&& after.stats.message_kinds == before.stats.message_kinds
    &&& after.stats.same_timings(&before.stats)
    &&& after.stats.republish_per_peer_timeout == before.stats.republish_per_peer_timeout
    &&& after.stats.outbound_budget_exhausted == before.stats.outbound_budget_exhausted
    &&& after.stats.cooldown_bypass_probes == before.stats.cooldown_bypass_probes
    &&& after.stats.cooldown_bypass_successes == (if attempt.kind == SendAttemptKind::CooldownBypass {
        before.stats.cooldown_bypass_successes.wrapping_add(1)
    } else {
        before.stats.cooldown_bypass_successes
    })
    &&& after.stats.suppression_cleanup == before.stats.suppression_cleanup
    &&& after.stats.suppressed_peers@ == (if before.state.ends_suppression(attempt) {
        before.stats.suppressed_peers@.remove(SuppressedPeerKey { topic: ctx.topic, peer: attempt.peer })
    } else {
        before.stats.suppressed_peers@
    })
}

/// What one timed-out send does.
pub open spec fn timeout_step(
    ctx: SendContext,
    before: ResultWorld,
    after: ResultWorld,
    attempt: PeerSendAttempt,
    now: Instant,
) -> bool {
    let effect = before.state.timeout_effect(attempt, now, Some(ctx.cooling_config), ctx.health_of(attempt.peer));
    let outcome = before.state.outcome_of(attempt, now, effect);
    &&& after.state.after_timeout(&before.state, attempt, now, effect)
    &&& suppression_reported(after.stats, before.stats, ctx, attempt.peer, outcome.suppression, false)
    &&& after.indirect_probes@ == (if outcome.request_indirect_probe {
        before.indirect_probes@.push(attempt.peer)
    } else {
        before.indirect_probes@
    })
}

pub open spec fn same_results(after: ResultWorld, before: ResultWorld) -> bool {
    &&& after.state == before.state
    &&& after.stats == before.stats
    &&& after.indirect_probes@ == before.indirect_probes@
}

/// Successful sends, one after the other.
pub open spec fn success_round(
    ctx: SendContext,
    before: ResultWorld,
    after: ResultWorld,
    sent: Seq<PeerSendCompletion>,
    decayed_above: Seq<Duration>,
    now: Instant,
) -> bool
    decreases sent.len(),
{
    if sent.len() == 0 {
        same_results(after, before)
    } else {
        exists|middle: ResultWorld|
            {
                &&& success_round(ctx, before, middle, sent.drop_last(), decayed_above, now)
                &&& #[trigger] success_step(
                    ctx,
                    middle,
                    after,
                    sent.last().attempt,
                    decayed_above[sent.len() - 1],
                    now,
                )
            }
    }
}

/// Timed-out sends, one after the other.
pub open spec fn timeout_round(
    ctx: SendContext,
    before: ResultWorld,
    after: ResultWorld,
    timed_out: Seq<PeerSendAttempt>,
    now: Instant,
) -> bool
    decreases timed_out.len(),
{
    if timed_out.len() == 0 {
        same_results(after, before)
    } else {
        exists|middle: ResultWorld|
            {
                &&& timeout_round(ctx, before, middle, timed_out.drop_last(), now)
                &&& #[trigger] timeout_step(ctx, middle, after, timed_out.last(), now)
            }
    }
}

fn record_success(
    ctx: &SendContext,
    state: &mut TopicState,
    stats: &mut PubSubStageStats,
    attempt: PeerSendAttempt,
    decayed_above: Duration,
    now: Instant,
)
    requires
        old(state).wf(),
        old(stats).wf(),
    ensures
        final(state).wf(),
        final(stats).wf(),
        forall|probes: Vec<PeerId>| #[trigger]
            success_step(
                *ctx,
                (ResultWorld { state: *old(state), stats: *old(stats), indirect_probes: probes }),
                (ResultWorld { state: *final(state), stats: *final(stats), indirect_probes: probes }),
                attempt,
                decayed_above,
                now,
            ),
{
    if attempt.kind == SendAttemptKind::CooldownBypass {
        stats.record_cooldown_bypass_success();
    }
    if state.record_send_success_with_context_at(attempt, now, ctx.cooling_config, decayed_above) {
        stats.clear_peer_suppression(ctx.topic, attempt.peer);
    }
}

fn record_timeout(
    ctx: &SendContext,
    state: &mut TopicState,
    stats: &mut PubSubStageStats,
    indirect_probes: &mut Vec<PeerId>,
    attempt: PeerSendAttempt,
    now: Instant,
)
    requires
        ctx.wf(),
        old(state).wf(),
        old(stats).wf(),
        now.can_advance(ctx.cooling_config.max),
    ensures
        final(state).wf(),
        final(stats).wf(),
        timeout_step(
            *ctx,
            (ResultWorld { state: *old(state), stats: *old(stats), indirect_probes: *old(indirect_probes) }),
            (ResultWorld { state: *final(state), stats: *final(stats), indirect_probes: *final(indirect_probes) }),
            attempt,
            now,
        ),
{
    let health = ctx.peer_health(&attempt.peer);
    let outcome = state.record_send_timeout_with_context_at(attempt, now, health, ctx.cooling_config);
    if outcome.request_indirect_probe {
        indirect_probes.push(attempt.peer);
    }
    if let Some(event) = outcome.suppression {
        stats.record_peer_suppressed(
            ctx.topic,
            attempt.peer,
            event.suppressed_until,
            event.recent_timeout_count,
            event.cooldown,
            ctx.unix_now_ms,
        );
        if event.demoted {
            stats.message_kinds.record_prune();
        }
    }
}

/// Takes in the outcomes of a round of sends on a topic; lists the peers that the membership layer
/// should look at. `decayed_above` holds, for each success, what is left of the amount that
/// `TopicState::decay_input_at` gave.
pub fn record_topic_send_attempt_results_for_state(
    ctx: &SendContext,
    state: &mut TopicState,
    stats: &mut PubSubStageStats,
    sent: &Vec<PeerSendCompletion>,
    decayed_above: &Vec<Duration>,
    timed_out: &Vec<PeerSendAttempt>,
    now: Instant,
) -> (r: Vec<PeerId>)
    requires
        ctx.wf(),
        old(state).wf(),
        old(stats).wf(),
        now.can_advance(ctx.cooling_config.max),
        decayed_above@.len() == sent@.len(),
    ensures
        final(state).wf(),
        final(stats).wf(),
        exists|start: Vec<PeerId>, middle: ResultWorld|
            {
                &&& start@.len() == 0
                &&& #[trigger] success_round(
                    *ctx,
                    (ResultWorld { state: *old(state), stats: *old(stats), indirect_probes: start }),
                    middle,
                    sent@,
                    decayed_above@,
                    now,
                )
                &&& timeout_round(
                    *ctx,
                    middle,
                    (ResultWorld { state: *final(state), stats: *final(stats), indirect_probes: r }),
                    timed_out@,
                    now,
                )
            },
{
    let mut probes: Vec<PeerId> = Vec::new();
    let ghost start = probes;
    let ghost first = ResultWorld { state: *state, stats: *stats, indirect_probes: probes };
    let mut i: usize = 0;
    assert(sent@.take(0) =~= Seq::empty());
    while i < sent.len()
        invariant
            i <= sent@.len(),
            state.wf(),
            stats.wf(),
            decayed_above@.len() == sent@.len(),
            success_round(
                *ctx,
                first,
                (ResultWorld { state: *state, stats: *stats, indirect_probes: start }),
                sent@.take(i as int),
                decayed_above@,
                now,
            ),
        decreases sent@.len() - i,
    {
        let ghost middle = ResultWorld { state: *state, stats: *stats, indirect_probes: start };
        record_success(ctx, state, stats, sent[i].attempt, decayed_above[i], now);
        proof {
            let after = ResultWorld { state: *state, stats: *stats, indirect_probes: start };
            let next = sent@.take(i + 1);
            assert(next.drop_last() =~= sent@.take(i as int));
            assert(next.last() == sent@[i as int]);
            assert(success_step(*ctx, middle, after, next.last().attempt, decayed_above@[next.len() - 1], now));
            assert(success_round(*ctx, first, after, next, decayed_above@, now));
        }
        i = i + 1;
    }
    assert(sent@.take(sent@.len() as int) =~= sent@);
    let ghost halfway = ResultWorld { state: *state, stats: *stats, indirect_probes: start };
    let mut n: usize = 0;
    assert(timed_out@.take(0) =~= Seq::empty());
    while n < timed_out.len()
        invariant
            n <= timed_out@.len(),
            ctx.wf(),
            state.wf(),
            stats.wf(),
            now.can_advance(ctx.cooling_config.max),
            timeout_round(
                *ctx,
                halfway,
                (ResultWorld { state: *state, stats: *stats, indirect_probes: probes }),
                timed_out@.take(n as int),
                now,
            ),
        decreases timed_out@.len() - n,
    {
        let ghost middle = ResultWorld { state: *state, stats: *stats, indirect_probes: probes };
        record_timeout(ctx, state, stats, &mut probes, timed_out[n], now);
        proof {
            let after = ResultWorld { state: *state, stats: *stats, indirect_probes: probes };
            let next = timed_out@.take(n + 1);
            assert(next.drop_last() =~= timed_out@.take(n as int));
            assert(next.last() == timed_out@[n as int]);
            assert(timeout_step(*ctx, middle, after, next.last(), now));
            assert(timeout_round(*ctx, halfway, after, next, now));
        }
        n = n + 1;
    }
    assert(timed_out@.take(timed_out@.len() as int) =~= timed_out@);
    proof {
        assert(success_round(*ctx, first, halfway, sent@, decayed_above@, now));
    }
    probes
}

/// The peers of the recovery probes among some sends.
pub open spec fn probed_peers(attempts: Seq<PeerSendAttempt>) -> Set<PeerId> {
    Set::new(
        |p: PeerId| exists|i: int|
            0 <= i < attempts.len() && (#[trigger] attempts[i]).kind == SendAttemptKind::RecoveryProbe
                && attempts[i].peer == p,
    )
}

/// The topic is gone: no recovery probe of the round is reported any longer.
pub fn forget_recovery_probes(stats: &mut PubSubStageStats, topic: TopicId, attempts: &Vec<PeerSendAttempt>)
    requires
        old(stats).wf(),
    ensures
        final(stats).wf(),
        final(stats).only_suppressions_changed(old(stats)),
        final(stats).suppressed_peers@ == old(stats).suppressed_peers@.restrict(
            Set::new(|k: SuppressedPeerKey| k.topic != topic || !probed_peers(attempts@).contains(k.peer)),
        ),
{
    let ghost all = stats.suppressed_peers@;
    let mut i: usize = 0;
    assert(all =~= all.restrict(
        Set::new(|k: SuppressedPeerKey| k.topic != topic || !probed_peers(attempts@.take(0)).contains(k.peer)),
    ));
    while i < attempts.len()
        invariant
            i <= attempts@.len(),
            stats.wf(),
            stats.only_suppressions_changed(old(stats)),
            stats.suppressed_peers@ == all.restrict(
                Set::new(
                    |k: SuppressedPeerKey|
                        k.topic != topic || !probed_peers(attempts@.take(i as int)).contains(k.peer),
                ),
            ),
        decreases attempts@.len() - i,
    {
        let attempt = attempts[i];
        if attempt.kind == SendAttemptKind::RecoveryProbe {
            stats.clear_peer_suppression(topic, attempt.peer);
        }
        proof {
            let before = attempts@.take(i as int);
            let after = attempts@.take(i + 1);
            assert forall|p: PeerId| #[trigger] probed_peers(after).contains(p) == (probed_peers(before).contains(p) || (
            attempt.kind == SendAttemptKind::RecoveryProbe && attempt.peer == p)) by {
                if probed_peers(before).contains(p) {
                    let j = choose|j: int|
                        0 <= j < before.len() && (#[trigger] before[j]).kind == SendAttemptKind::RecoveryProbe
                            && before[j].peer == p;
                    assert(after[j] == before[j]);
                }
                if probed_peers(after).contains(p) {
                    let j = choose|j: int|
                        0 <= j < after.len() && (#[trigger] after[j]).kind == SendAttemptKind::RecoveryProbe
                            && after[j].peer == p;
                    if j < i {
                        assert(before[j] == after[j]);
                    }
                }
                assert(after[i as int] == attempt);
            }
            assert(stats.suppressed_peers@ =~= all.restrict(
                Set::new(|k: SuppressedPeerKey| k.topic != topic || !probed_peers(after).contains(k.peer)),
            ));
        }
        i = i + 1;
    }
    assert(attempts@.take(attempts@.len() as int) =~= attempts@);
}

/// The outcome of a recovery probe that is not the one in flight changes no suppression.
pub proof fn stale_probe_results_are_inert(
    ctx: SendContext,
    before: ResultWorld,
    after: ResultWorld,
    attempt: PeerSendAttempt,
    decayed_above: Duration,
    now: Instant,
)
    requires
        attempt.kind == SendAttemptKind::RecoveryProbe,
        !before.state.ends_suppression(attempt),
    ensures
        timeout_step(ctx, before, after, attempt, now) ==> {
            &&& after.state.peer_cooling@ == before.state.peer_cooling@
            &&& after.state.peer_scores@ == before.state.peer_scores@
            &&& after.state.same_mesh(&before.state)
            &&& after.stats.suppressed_peers@ == before.stats.suppressed_peers@
        },
        success_step(ctx, before, after, attempt, decayed_above, now) ==> {
            &&& after.state.peer_cooling@ == before.state.peer_cooling@
            &&& after.stats.suppressed_peers@ == before.stats.suppressed_peers@
        },
{
}

/// A send during a cooldown neither ends the suppression nor makes it longer.
pub proof fn bypass_results_keep_the_suppression(
    ctx: SendContext,
    before: ResultWorld,
    after: ResultWorld,
    attempt: PeerSendAttempt,
    decayed_above: Duration,
    now: Instant,
)
    requires
        attempt.kind == SendAttemptKind::CooldownBypass,
        before.state.peer_suppressed(attempt.peer, now),
    ensures
        timeout_step(ctx, before, after, attempt, now) ==> {
            &&& after.state.peer_cooling@ == before.state.peer_cooling@
            &&& after.state.same_mesh(&before.state)
        },
        success_step(ctx, before, after, attempt, decayed_above, now) ==> {
            &&& after.state.peer_suppressed(attempt.peer, now)
            &&& after.state.peer_cooling@[attempt.peer].suppressed_until
                == before.state.peer_cooling@[attempt.peer].suppressed_until
            &&& after.state.same_mesh(&before.state)
        },
{
}

/// A failed recovery probe suppresses the peer again at once and takes it out of the eager ones.
pub proof fn failed_probe_suppresses_again(
    ctx: SendContext,
    before: ResultWorld,
    after: ResultWorld,
    attempt: PeerSendAttempt,
    now: Instant,
)
    requires
        before.state.ends_suppression(attempt),
        timeout_step(ctx, before, after, attempt, now),
    ensures
        after.state.peer_suppressed(attempt.peer, now),
        !after.state.peer_cooling@[attempt.peer].recovery_probe_in_flight,
        !after.state.eager_peers@.contains(attempt.peer),
        after.state.peer_cooling@[attempt.peer].last_suppression_timeout_count == 1,
{
}

/// Every send that was made is among the successes, with its duration, and nothing else is.
pub proof fn every_success_is_collected(outcomes: Seq<(PeerSendAttempt, PeerSendOutcome)>, c: PeerSendCompletion)
    ensures
        completions(outcomes).contains(c) <==> outcomes.contains(
            (c.attempt, PeerSendOutcome::Sent { observed: c.observed }),
        ),
    decreases outcomes.len(),
{
    if outcomes.len() > 0 {
        let rest = outcomes.drop_first();
        every_success_is_collected(rest, c);
        lemma_first_or_rest(outcomes, (c.attempt, PeerSendOutcome::Sent { observed: c.observed }));
        match outcomes.first().1 {
            PeerSendOutcome::Sent { observed } => {
                lemma_pushed(completions(rest), PeerSendCompletion { attempt: outcomes.first().0, observed }, c);
            },
            _ => {},
        }
    }
}

/// Every send that timed out or failed is among the timeouts, and of those that did not come to an
/// end the recovery probes; nothing else is.
pub proof fn every_timeout_is_collected(outcomes: Seq<(PeerSendAttempt, PeerSendOutcome)>, attempt: PeerSendAttempt)
    ensures
        timeouts(outcomes).contains(attempt) <==> outcomes.contains((attempt, PeerSendOutcome::TimedOut))
            || outcomes.contains((attempt, PeerSendOutcome::Failed)) || (attempt.kind == SendAttemptKind::RecoveryProbe
            && outcomes.contains((attempt, PeerSendOutcome::Panicked))),
    decreases outcomes.len(),
{
    if outcomes.len() > 0 {
        let rest = outcomes.drop_first();
        every_timeout_is_collected(rest, attempt);
        lemma_first_or_rest(outcomes, (attempt, PeerSendOutcome::TimedOut));
        lemma_first_or_rest(outcomes, (attempt, PeerSendOutcome::Failed));
        lemma_first_or_rest(outcomes, (attempt, PeerSendOutcome::Panicked));
        lemma_pushed(timeouts(rest), outcomes.first().0, attempt);
    }
}

/// No outcome is lost: every send is a success, a timeout, or one that did not come to an end and
/// was no recovery probe.
pub proof fn no_outcome_is_lost(outcomes: Seq<(PeerSendAttempt, PeerSendOutcome)>)
    requires
        forall|i: int|
            0 <= i < outcomes.len() ==> !((#[trigger] outcomes[i]).1 is Panicked) || outcomes[i].0.kind
                == SendAttemptKind::RecoveryProbe,
    ensures
        completions(outcomes).len() + timeouts(outcomes).len() == outcomes.len(),
    decreases outcomes.len(),
{
    if outcomes.len() > 0 {
        let rest = outcomes.drop_first();
        assert forall|i: int| 0 <= i < rest.len() implies !((#[trigger] rest[i]).1 is Panicked) || rest[i].0.kind
            == SendAttemptKind::RecoveryProbe by {
            assert(rest[i] == outcomes[i + 1]);
        }
        no_outcome_is_lost(rest);
        assert(outcomes[0] == outcomes.first());
    }
}

proof fn lemma_first_or_rest<A>(s: Seq<A>, a: A)
    requires
        s.len() > 0,
    ensures
        s.contains(a) <==> s.first() == a || s.drop_first().contains(a),
{
    if s.contains(a) {
        let i = s.index_of(a);
        if i > 0 {
            assert(s.drop_first()[i - 1] == a);
        }
    }
    if s.drop_first().contains(a) {
        let i = s.drop_first().index_of(a);
        assert(s[i + 1] == a);
    }
    if s.first() == a {
        assert(s[0] == a);
    }
}

proof fn lemma_pushed<A>(s: Seq<A>, a: A, b: A)
    ensures
        s.push(a).contains(b) <==> s.contains(b) || a == b,
{
    if s.contains(b) {
        let i = s.index_of(b);
        assert(s.push(a)[i] == b);
    }
    if a == b {
        assert(s.push(a)[s.len() as int] == b);
    }
}

/// Exactly the recovery probes of a round that was given up count, in their order.
pub proof fn given_up_probes_count(attempts: Seq<PeerSendAttempt>) -> (at: Seq<int>)
    ensures
        crate::order::picks(at, attempts.filter(is_probe()), attempts),
        forall|i: int|
            0 <= i < attempts.len() ==> (#[trigger] at.contains(i) <==> attempts[i].kind
                == SendAttemptKind::RecoveryProbe),
{
    let pred = is_probe();
    let at = crate::order::lemma_filter_positions(attempts, pred);
    assert forall|i: int| 0 <= i < attempts.len() implies (#[trigger] at.contains(i) <==> attempts[i].kind
        == SendAttemptKind::RecoveryProbe) by {
        if at.contains(i) {
            let j = at.index_of(i);
            assert(pred(attempts[at[j]]));
        }
        assert(pred(attempts[i]) == (attempts[i].kind == SendAttemptKind::RecoveryProbe));
    }
    at
}

/// How often a peer was sent to.
pub open spec fn sends_to(sent: Seq<PeerSendCompletion>, peer: PeerId) -> nat
    decreases sent.len(),
{
    if sent.len() == 0 {
        0
    } else {
        sends_to(sent.drop_last(), peer) + if sent.last().attempt.peer == peer { 1nat } else { 0 }
    }
}

/// How many successes count for a peer.
pub open spec fn successes_of(state: TopicState, peer: PeerId) -> int {
    if state.peer_scores@.dom().contains(peer) {
        state.peer_scores@[peer].outbound_send_successes.events as int
    } else {
        0
    }
}

/// Every success of a round counts for its peer.
pub proof fn every_success_counts(
    ctx: SendContext,
    before: ResultWorld,
    after: ResultWorld,
    sent: Seq<PeerSendCompletion>,
    decayed_above: Seq<Duration>,
    now: Instant,
    peer: PeerId,
)
    requires
        success_round(ctx, before, after, sent, decayed_above, now),
        successes_of(before.state, peer) + sent.len() < u64::MAX,
    ensures
        successes_of(after.state, peer) == successes_of(before.state, peer) + sends_to(sent, peer),
        sends_to(sent, peer) <= sent.len(),
        after.state.eager_peers@ == before.state.eager_peers@,
        after.indirect_probes@ == before.indirect_probes@,
    decreases sent.len(),
{
    if sent.len() > 0 {
        let left = decayed_above[sent.len() - 1];
        let middle = choose|middle: ResultWorld|
            {
                &&& success_round(ctx, before, middle, sent.drop_last(), decayed_above, now)
                &&& #[trigger] success_step(ctx, middle, after, sent.last().attempt, left, now)
            };
        every_success_counts(ctx, before, middle, sent.drop_last(), decayed_above, now, peer);
    }
}

/// How often sends to a peer timed out.
pub open spec fn timeouts_to(timed_out: Seq<PeerSendAttempt>, peer: PeerId) -> nat
    decreases timed_out.len(),
{
    if timed_out.len() == 0 {
        0
    } else {
        timeouts_to(timed_out.drop_last(), peer) + if timed_out.last().peer == peer { 1nat } else { 0 }
    }
}

/// How many timeouts count against a peer.
pub open spec fn timeouts_of(state: TopicState, peer: PeerId) -> int {
    if state.peer_scores@.dom().contains(peer) {
        state.peer_scores@[peer].outbound_send_timeouts.events as int
    } else {
        0
    }
}

/// Every timeout of an ordinary send counts against its peer.
pub proof fn every_timeout_counts(
    ctx: SendContext,
    before: ResultWorld,
    after: ResultWorld,
    timed_out: Seq<PeerSendAttempt>,
    now: Instant,
    peer: PeerId,
)
    requires
        timeout_round(ctx, before, after, timed_out, now),
        forall|i: int| 0 <= i < timed_out.len() ==> (#[trigger] timed_out[i]).kind == SendAttemptKind::Normal,
        timeouts_of(before.state, peer) + timed_out.len() < u64::MAX,
    ensures
        timeouts_of(after.state, peer) == timeouts_of(before.state, peer) + timeouts_to(timed_out, peer),
        timeouts_to(timed_out, peer) <= timed_out.len(),
    decreases timed_out.len(),
{
    if timed_out.len() > 0 {
        let rest = timed_out.drop_last();
        let middle = choose|middle: ResultWorld|
            {
                &&& timeout_round(ctx, before, middle, rest, now)
                &&& #[trigger] timeout_step(ctx, middle, after, timed_out.last(), now)
            };
        assert forall|i: int| 0 <= i < rest.len() implies (#[trigger] rest[i]).kind == SendAttemptKind::Normal by {
            assert(rest[i] == timed_out[i]);
        }
        assert(timed_out[timed_out.len() - 1] == timed_out.last());
        every_timeout_counts(ctx, before, middle, rest, now, peer);
    }
}

/// How long the sends of a round took is noted for each peer, the last one last.
pub proof fn durations_are_noted(samples: Seq<u32>, sent: Seq<PeerSendCompletion>, peer: PeerId)
    ensures
        sends_to(sent, peer) == 0 ==> samples_after(samples, sent, peer) == samples,
        sent.len() > 0 && sent.last().attempt.peer == peer && sent.last().observed.nanos
            / crate::time::NANOS_PER_MILLI <= u32::MAX ==> {
            &&& samples_after(samples, sent, peer).len() > 0
            &&& samples_after(samples, sent, peer).last() == sent.last().observed.nanos / crate::time::NANOS_PER_MILLI
        },
        sent.len() > 0 && sent.last().attempt.peer != peer ==> samples_after(samples, sent, peer) == samples_after(
            samples,
            sent.drop_last(),
            peer,
        ),
    decreases sent.len(),
{
    if sent.len() > 0 {
        durations_are_noted(samples, sent.drop_last(), peer);
    }
}

/// What is reported of a success: a suppression that it ends is no longer reported, a send during a
/// cooldown counts, and nothing else changes.
pub proof fn successes_are_reported(
    ctx: SendContext,
    before: ResultWorld,
    after: ResultWorld,
    attempt: PeerSendAttempt,
    decayed_above: Duration,
    now: Instant,
    other: SuppressedPeerKey,
)
    requires
        success_step(ctx, before, after, attempt, decayed_above, now),
        before.stats.cooldown_bypass_successes < u64::MAX,
    ensures
        ({
            let key = SuppressedPeerKey { topic: ctx.topic, peer: attempt.peer };
            let cooling = before.state.peer_cooling@;
            let ended = attempt.kind == SendAttemptKind::RecoveryProbe && cooling.dom().contains(attempt.peer)
                && cooling[attempt.peer].recovery_probe_in_flight && cooling[attempt.peer].recovery_probe_id
                == attempt.recovery_probe_id;
            let reports = before.stats.suppressed_peers@;
            &&& ended ==> !after.stats.suppressed_peers@.dom().contains(key)
            &&& other != key || !ended ==> after.stats.suppressed_peers@.dom().contains(other) == reports.dom().contains(
                other,
            )
            &&& other != key && reports.dom().contains(other) ==> after.stats.suppressed_peers@[other] == reports[other]
            &&& after.stats.cooldown_bypass_successes == before.stats.cooldown_bypass_successes + (if attempt.kind
                == SendAttemptKind::CooldownBypass {
                1int
            } else {
                0
            })
            &&& after.stats.message_kinds == before.stats.message_kinds
        }),
{
}

/// The peers that were probed are those of the recovery probes among the sends.
pub proof fn probed_peers_were_sent_a_probe(attempts: Seq<PeerSendAttempt>, peer: PeerId)
    ensures
        probed_peers(attempts).contains(peer) <==> exists|i: int|
            0 <= i < attempts.len() && (#[trigger] attempts[i]).peer == peer && attempts[i].kind
                == SendAttemptKind::RecoveryProbe,
{
    if probed_peers(attempts).contains(peer) {
        let i = choose|i: int|
            0 <= i < attempts.len() && (#[trigger] attempts[i]).kind == SendAttemptKind::RecoveryProbe
                && attempts[i].peer == peer;
        assert(attempts[i].peer == peer);
    }
}

/// Others are asked about a peer exactly where a timeout would suppress it while it is suspected:
/// the peer is then not suppressed.
pub proof fn suspected_peers_are_asked_about_after_timeouts(
    ctx: SendContext,
    before: ResultWorld,
    after: ResultWorld,
    attempt: PeerSendAttempt,
    now: Instant,
)
    requires
        timeout_step(ctx, before, after, attempt, now),
        attempt.kind == SendAttemptKind::Normal,
        before.state.peer_cooling@.dom().contains(attempt.peer),
        before.state.peer_cooling@[attempt.peer].suppressed_until is None,
        !before.state.peer_cooling@[attempt.peer].recovery_probe_in_flight,
        before.state.peer_cooling@[attempt.peer].timeout_count < usize::MAX,
        now.nanos <= before.state.peer_cooling@[attempt.peer].timeout_window_started.nanos
            + crate::config::PEER_TIMEOUT_WINDOW_SECS * crate::time::NANOS_PER_SEC,
    ensures
        ({
            let peer = attempt.peer;
            let suspected = ctx.health@.dom().contains(peer) && ctx.health@[peer] == crate::cooling::PeerHealth::Suspect;
            let enough = before.state.peer_cooling@[peer].timeout_count + 1 >= crate::config::PEER_TIMEOUT_THRESHOLD;
            &&& suspected && enough ==> after.indirect_probes@ == before.indirect_probes@.push(peer)
                && after.state.peer_cooling@[peer].suppressed_until is None
            &&& !(suspected && enough) ==> after.indirect_probes@ == before.indirect_probes@
        }),
{
}

} // verus!
