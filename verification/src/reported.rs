//! What is reported of suppressions is true: every report is of a peer that its topic still
//! suppresses, with the same end and the same probe.

use vstd::prelude::*;

use crate::claims::{claim_round, claim_step, SendContext, SendWorld};
use crate::connectivity::reported_while_connected;
use crate::cooling::{PeerCoolingState, PeerSendAttempt};
use crate::ids::{PeerId, TopicId};
use crate::inbound::inbound_reported;
use crate::membership::reported_after_refresh;
use crate::mesh::MeshScores;
use crate::results::{success_round, success_step, timeout_round, timeout_step, PeerSendCompletion, ResultWorld};
use crate::stats::{PubSubStageStats, SuppressedPeerKey, SuppressedPeerState};
use crate::time::{Duration, Instant};
use crate::topic::TopicState;
use crate::topics::still_reported;

verus! {

/// A report says of a suppression what the cooling state of the peer says.
pub open spec fn agrees(report: SuppressedPeerState, cooling: PeerCoolingState) -> bool {
    &&& cooling.suppressed_until == Some(report.suppressed_until)
    &&& cooling.recovery_probe_in_flight == report.recovery_probe_in_flight
}

/// Every report on a topic is of a peer that the topic suppresses.
pub open spec fn truly_reported(
    reports: Map<SuppressedPeerKey, SuppressedPeerState>,
    topic: TopicId,
    cooling: Map<PeerId, PeerCoolingState>,
) -> bool {
    forall|k: SuppressedPeerKey| #[trigger]
        reports.dom().contains(k) && k.topic == topic ==> cooling.dom().contains(k.peer) && agrees(
            reports[k],
            cooling[k.peer],
        )
}

/// Every report is of a topic that the node has, and of a peer that the topic suppresses.
pub open spec fn all_truly_reported(
    reports: Map<SuppressedPeerKey, SuppressedPeerState>,
    topics: Map<TopicId, TopicState>,
) -> bool {
    forall|k: SuppressedPeerKey| #[trigger]
        reports.dom().contains(k) ==> topics.dom().contains(k.topic) && topics[k.topic].peer_cooling@.dom().contains(
            k.peer,
        ) && agrees(reports[k], topics[k.topic].peer_cooling@[k.peer])
}

/// The reports on all other topics are the same.
pub open spec fn same_elsewhere(
    after: Map<SuppressedPeerKey, SuppressedPeerState>,
    before: Map<SuppressedPeerKey, SuppressedPeerState>,
    topic: TopicId,
) -> bool {
    forall|k: SuppressedPeerKey|
        k.topic != topic ==> {
            &&& #[trigger] after.dom().contains(k) == before.dom().contains(k)
            &&& before.dom().contains(k) ==> after[k] == before[k]
        }
}

/// All reports are true where they are so on every topic that the node has, and there are no others.
pub proof fn topics_report_one_by_one(
    reports: Map<SuppressedPeerKey, SuppressedPeerState>,
    topics: Map<TopicId, TopicState>,
)
    ensures
        all_truly_reported(reports, topics) <==> (forall|t: TopicId| #[trigger]
            topics.dom().contains(t) ==> truly_reported(reports, t, topics[t].peer_cooling@)) && (forall|
            k: SuppressedPeerKey,
        | #[trigger]
            reports.dom().contains(k) ==> topics.dom().contains(k.topic)),
{
    if all_truly_reported(reports, topics) {
        assert forall|t: TopicId| #[trigger] topics.dom().contains(t) implies truly_reported(
            reports,
            t,
            topics[t].peer_cooling@,
        ) by {}
    }
    if (forall|t: TopicId| #[trigger]
        topics.dom().contains(t) ==> truly_reported(reports, t, topics[t].peer_cooling@)) && (forall|
        k: SuppressedPeerKey,
    | #[trigger]
        reports.dom().contains(k) ==> topics.dom().contains(k.topic)) {
        assert forall|k: SuppressedPeerKey| #[trigger] reports.dom().contains(k) implies topics.dom().contains(k.topic)
            && topics[k.topic].peer_cooling@.dom().contains(k.peer) && agrees(
            reports[k],
            topics[k.topic].peer_cooling@[k.peer],
        ) by {
            assert(topics.dom().contains(k.topic));
            assert(truly_reported(reports, k.topic, topics[k.topic].peer_cooling@));
        }
    }
}

/// Asking for a send keeps the reports true.
pub proof fn claims_keep_reports_true(
    ctx: SendContext,
    before: SendWorld,
    after: SendWorld,
    peer: PeerId,
    now: Instant,
)
    requires
        claim_step(ctx, before, after, peer, now),
        truly_reported(before.stats.suppressed_peers@, ctx.topic, before.state.peer_cooling@),
    ensures
        truly_reported(after.stats.suppressed_peers@, ctx.topic, after.state.peer_cooling@),
        same_elsewhere(after.stats.suppressed_peers@, before.stats.suppressed_peers@, ctx.topic),
{
}

/// A round of claims keeps the reports true.
pub proof fn claim_rounds_keep_reports_true(
    ctx: SendContext,
    before: SendWorld,
    after: SendWorld,
    peers: Seq<PeerId>,
    now: Instant,
)
    requires
        claim_round(ctx, before, after, peers, now),
        truly_reported(before.stats.suppressed_peers@, ctx.topic, before.state.peer_cooling@),
    ensures
        truly_reported(after.stats.suppressed_peers@, ctx.topic, after.state.peer_cooling@),
        same_elsewhere(after.stats.suppressed_peers@, before.stats.suppressed_peers@, ctx.topic),
    decreases peers.len(),
{
    if peers.len() > 0 {
        let middle = choose|middle: SendWorld|
            {
                &&& claim_round(ctx, before, middle, peers.drop_last(), now)
                &&& #[trigger] claim_step(ctx, middle, after, peers.last(), now)
            };
        claim_rounds_keep_reports_true(ctx, before, middle, peers.drop_last(), now);
        claims_keep_reports_true(ctx, middle, after, peers.last(), now);
    }
}

/// The outcome of a send keeps the reports true.
pub proof fn outcomes_keep_reports_true(
    ctx: SendContext,
    before: ResultWorld,
    after: ResultWorld,
    attempt: PeerSendAttempt,
    decayed_above: Duration,
    now: Instant,
)
    requires
        success_step(ctx, before, after, attempt, decayed_above, now) || timeout_step(ctx, before, after, attempt, now),
        truly_reported(before.stats.suppressed_peers@, ctx.topic, before.state.peer_cooling@),
    ensures
        truly_reported(after.stats.suppressed_peers@, ctx.topic, after.state.peer_cooling@),
        same_elsewhere(after.stats.suppressed_peers@, before.stats.suppressed_peers@, ctx.topic),
{
}

/// The successes of a round keep the reports true.
pub proof fn successes_keep_reports_true(
    ctx: SendContext,
    before: ResultWorld,
    after: ResultWorld,
    sent: Seq<PeerSendCompletion>,
    decayed_above: Seq<Duration>,
    now: Instant,
)
    requires
        success_round(ctx, before, after, sent, decayed_above, now),
        truly_reported(before.stats.suppressed_peers@, ctx.topic, before.state.peer_cooling@),
    ensures
        truly_reported(after.stats.suppressed_peers@, ctx.topic, after.state.peer_cooling@),
        same_elsewhere(after.stats.suppressed_peers@, before.stats.suppressed_peers@, ctx.topic),
    decreases sent.len(),
{
    if sent.len() > 0 {
        let left = decayed_above[sent.len() - 1];
        let middle = choose|middle: ResultWorld|
            {
                &&& success_round(ctx, before, middle, sent.drop_last(), decayed_above, now)
                &&& #[trigger] success_step(ctx, middle, after, sent.last().attempt, left, now)
            };
        successes_keep_reports_true(ctx, before, middle, sent.drop_last(), decayed_above, now);
        outcomes_keep_reports_true(ctx, middle, after, sent.last().attempt, left, now);
    }
}

/// The timeouts of a round keep the reports true.
pub proof fn timeouts_keep_reports_true(
    ctx: SendContext,
    before: ResultWorld,
    after: ResultWorld,
    timed_out: Seq<PeerSendAttempt>,
    now: Instant,
)
    requires
        timeout_round(ctx, before, after, timed_out, now),
        truly_reported(before.stats.suppressed_peers@, ctx.topic, before.state.peer_cooling@),
    ensures
        truly_reported(after.stats.suppressed_peers@, ctx.topic, after.state.peer_cooling@),
        same_elsewhere(after.stats.suppressed_peers@, before.stats.suppressed_peers@, ctx.topic),
    decreases timed_out.len(),
{
    if timed_out.len() > 0 {
        let middle = choose|middle: ResultWorld|
            {
                &&& timeout_round(ctx, before, middle, timed_out.drop_last(), now)
                &&& #[trigger] timeout_step(ctx, middle, after, timed_out.last(), now)
            };
        timeouts_keep_reports_true(ctx, before, middle, timed_out.drop_last(), now);
        outcomes_keep_reports_true(ctx, middle, after, timed_out.last(), Duration { nanos: 0 }, now);
    }
}

/// A message that comes in keeps the reports true: whoever is heard of is no longer cooled, and no
/// longer reported.
pub proof fn messages_keep_reports_true(
    before: TopicState,
    after: TopicState,
    stats_before: PubSubStageStats,
    stats: PubSubStageStats,
    topic: TopicId,
    peer: PeerId,
    pruned: bool,
)
    requires
        after.peer_cooling@ == before.peer_cooling@.remove(peer),
        inbound_reported(stats, stats_before, topic, peer, before.peer_cooling@.dom().contains(peer), pruned),
        truly_reported(stats_before.suppressed_peers@, topic, before.peer_cooling@),
    ensures
        truly_reported(stats.suppressed_peers@, topic, after.peer_cooling@),
        same_elsewhere(stats.suppressed_peers@, stats_before.suppressed_peers@, topic),
        !stats.suppressed_peers@.dom().contains(SuppressedPeerKey { topic, peer }),
{
}

/// Setting the peers of a topic keeps the reports true, and none is left of whoever left.
pub proof fn refreshes_keep_reports_true(
    before: TopicState,
    after: TopicState,
    reports: Map<SuppressedPeerKey, SuppressedPeerState>,
    topic: TopicId,
    connected: Seq<PeerId>,
    now: Instant,
    scores: MeshScores,
    pruned: usize,
    grafted: usize,
)
    requires
        after.refreshed_from(&before, connected.to_set(), now, scores, pruned, grafted),
        truly_reported(reports, topic, before.peer_cooling@),
    ensures
        ({
            let left = reports.restrict(reported_after_refresh(before, topic, connected));
            &&& truly_reported(left, topic, after.peer_cooling@)
            &&& same_elsewhere(left, reports, topic)
            &&& forall|k: SuppressedPeerKey| #[trigger]
                left.dom().contains(k) && k.topic == topic ==> connected.contains(k.peer)
        }),
{
    let set = choose|set: TopicState|
        {
            &&& set.wf()
            &&& #[trigger] set.peers_set_from(&before, connected.to_set())
            &&& after.maintained_from(&set, now, scores, pruned, grafted)
        };
    crate::mesh::maintenance_keeps_the_peers(set, after, now, scores, pruned, grafted);
    let left = reports.restrict(reported_after_refresh(before, topic, connected));
    assert forall|k: SuppressedPeerKey| #[trigger] left.dom().contains(k) && k.topic == topic implies
        connected.contains(k.peer) && after.peer_cooling@.dom().contains(k.peer) && agrees(
        left[k],
        after.peer_cooling@[k.peer],
    ) by {
        assert(reports.dom().contains(k));
        assert(before.peer_cooling@.dom().contains(k.peer));
        assert(connected.to_set().contains(k.peer));
    }
}

/// Dropping the peers that are not connected keeps all reports true, and none is left of them.
pub proof fn disconnections_keep_reports_true(
    before: Map<TopicId, TopicState>,
    after: Map<TopicId, TopicState>,
    reports: Map<SuppressedPeerKey, SuppressedPeerState>,
    connected: Set<PeerId>,
)
    requires
        after.dom() == before.dom(),
        forall|t: TopicId| #[trigger] before.dom().contains(t) ==> after[t].retained_from(&before[t], connected),
        all_truly_reported(reports, before),
    ensures
        all_truly_reported(reports.restrict(reported_while_connected(before.dom(), before, connected)), after),
        forall|k: SuppressedPeerKey| #[trigger]
            reports.restrict(reported_while_connected(before.dom(), before, connected)).dom().contains(k)
                ==> connected.contains(k.peer),
{
}

/// Dropping overdue suppressions keeps all reports true.
pub proof fn cleanups_keep_reports_true(
    before: Map<TopicId, TopicState>,
    after: Map<TopicId, TopicState>,
    reports: Map<SuppressedPeerKey, SuppressedPeerState>,
    now: Instant,
)
    requires
        after.dom() == before.dom(),
        forall|t: TopicId| #[trigger] before.dom().contains(t) ==> after[t].cooling_dropped_from(&before[t], now),
        all_truly_reported(reports, before),
    ensures
        all_truly_reported(reports.restrict(still_reported(before, now)), after),
{
    let left = reports.restrict(still_reported(before, now));
    assert forall|k: SuppressedPeerKey| #[trigger] left.dom().contains(k) implies after.dom().contains(k.topic)
        && after[k.topic].peer_cooling@.dom().contains(k.peer) && agrees(
        left[k],
        after[k.topic].peer_cooling@[k.peer],
    ) by {
        assert(reports.dom().contains(k));
        assert(before.dom().contains(k.topic));
        assert(!before[k.topic].overdue_peers(now).contains(k.peer));
    }
}

/// Dropping idle topics, or one that nobody wants any more, keeps all reports true once the reports
/// on these topics are gone.
pub proof fn dropped_topics_keep_reports_true(
    before: Map<TopicId, TopicState>,
    after: Map<TopicId, TopicState>,
    reports: Map<SuppressedPeerKey, SuppressedPeerState>,
    left: Map<SuppressedPeerKey, SuppressedPeerState>,
    dropped: Set<TopicId>,
)
    requires
        forall|t: TopicId| #[trigger]
            before.dom().contains(t) && !dropped.contains(t) ==> after.dom().contains(t) && after[t].peer_cooling
                == before[t].peer_cooling,
        forall|k: SuppressedPeerKey| #[trigger]
            left.dom().contains(k) ==> reports.dom().contains(k) && left[k] == reports[k] && !dropped.contains(k.topic),
        all_truly_reported(reports, before),
    ensures
        all_truly_reported(left, after),
{
    assert forall|k: SuppressedPeerKey| #[trigger] left.dom().contains(k) implies after.dom().contains(k.topic)
        && after[k.topic].peer_cooling@.dom().contains(k.peer) && agrees(
        left[k],
        after[k.topic].peer_cooling@[k.peer],
    ) by {
        assert(before.dom().contains(k.topic));
    }
}

/// Fewer reports are as true as they were: whatever only takes reports away, or leaves them and the
/// cooling states alone, keeps them true.
pub proof fn fewer_reports_are_true(
    before: Map<SuppressedPeerKey, SuppressedPeerState>,
    kept: Set<SuppressedPeerKey>,
    topics: Map<TopicId, TopicState>,
)
    requires
        all_truly_reported(before, topics),
    ensures
        all_truly_reported(before.restrict(kept), topics),
{
    assert forall|k: SuppressedPeerKey| #[trigger] before.restrict(kept).dom().contains(k) implies before.dom().contains(
        k,
    ) by {}
}

} // verus!
