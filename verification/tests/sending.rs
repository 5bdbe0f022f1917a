use saorsa_gossip_pubsub::budget::{
    CriticalSendGate, OutboundSendClass, PeerOutboundBudgets, SendOp, TopicPriority,
};
use saorsa_gossip_pubsub::cache::PubSubCacheConfig;
use saorsa_gossip_pubsub::claims::SendContext;
use saorsa_gossip_pubsub::collections::{IdMap, IdSet};
use saorsa_gossip_pubsub::config::{
    OUTBOUND_CONTROL_PERMITS_PER_PEER, OUTBOUND_CRITICAL_QUEUE_PER_PEER, PEER_TIMEOUT_THRESHOLD,
};
use saorsa_gossip_pubsub::connectivity::connected_snapshot;
use saorsa_gossip_pubsub::cooling::{PeerHealth, PeerSendAttempt, ProbeIds, SendAttemptKind};
use saorsa_gossip_pubsub::ids::{PeerId, TopicId};
use saorsa_gossip_pubsub::results::{
    cancelled_recovery_probes, collect_results, PeerSendCompletion, PeerSendOutcome,
};
use saorsa_gossip_pubsub::routing::{
    admission_requests, admitted_peers, settle_single_send, single_send, AdmissionRequest, SingleSend,
};
use saorsa_gossip_pubsub::stats::PubSubStageStats;
use saorsa_gossip_pubsub::time::{Duration, Instant};
use saorsa_gossip_pubsub::timing::{AdaptiveCoolingConfig, PerPeerRttTracker};
use saorsa_gossip_pubsub::topic::TopicState;
use saorsa_gossip_pubsub::topics::{claim_topic_send_attempts, record_topic_send_attempt_results};

fn start() -> Instant {
    Instant { nanos: 100_000_000_000_000 }
}

fn test_peer_id(id: u8) -> PeerId {
    let mut bytes = [0u8; 32];
    bytes[0] = id;
    PeerId::new(bytes)
}

fn context(topic: TopicId, op: SendOp, priority: TopicPriority) -> SendContext {
    SendContext {
        topic,
        op,
        priority,
        connected: None,
        health: IdMap::new(),
        cooling_config: AdaptiveCoolingConfig::default(),
        unix_now_ms: 1_000,
    }
}

fn topics_with(topic: TopicId, eager: &[PeerId]) -> IdMap<TopicId, TopicState> {
    let mut state = TopicState::with_cache_config(PubSubCacheConfig::default(), start());
    for peer in eager {
        state.eager_peers.insert(*peer);
    }
    let mut topics = IdMap::new();
    topics.insert(topic, state);
    topics
}

#[test]
fn test_x0x_0074d_critical_gate_bounds_queue_depth() {
    let mut gate = CriticalSendGate::new();
    let peer = test_peer_id(7);

    for _ in 0..OUTBOUND_CRITICAL_QUEUE_PER_PEER {
        assert!(gate.try_reserve(peer), "reservations within the bound succeed");
    }
    assert!(
        !gate.try_reserve(peer),
        "reservation past the per-peer bound must overflow (caller records a hard error)"
    );

    // Freeing one reservation reopens exactly one slot.
    gate.release(peer);
    assert!(gate.try_reserve(peer), "a freed reservation must reopen a queue slot");
    assert!(!gate.try_reserve(peer));
    assert!(gate.try_reserve(test_peer_id(8)), "each peer has a queue of its own");
}

#[test]
fn best_effort_and_critical_sends_do_not_share_a_lane() {
    let mut budgets = PeerOutboundBudgets::new();
    let peer = test_peer_id(2);
    let now = start();
    let bulk = budgets
        .try_acquire(peer, OutboundSendClass::Data, TopicPriority::Bulk, now)
        .expect("Bulk should claim the best-effort data lane");
    let critical = budgets
        .try_acquire(peer, OutboundSendClass::Data, TopicPriority::Critical, now)
        .expect("Critical has a queue of its own while Bulk is in flight");
    assert!(budgets.try_acquire(peer, OutboundSendClass::Data, TopicPriority::Normal, now).is_none());
    budgets.release(bulk, now);
    let again = budgets
        .try_acquire(peer, OutboundSendClass::Data, TopicPriority::Bulk, now)
        .expect("the lane is free again");
    assert_ne!(bulk.slot_id, again.slot_id);
    // The first permit holds the lane no longer: returning it again frees nothing.
    budgets.release(bulk, now);
    assert!(budgets.try_acquire(peer, OutboundSendClass::Data, TopicPriority::Bulk, now).is_none());
    assert!(budgets.try_acquire(peer, OutboundSendClass::Data, TopicPriority::Critical, now).is_some());
    budgets.release(critical, now);
    budgets.release(again, now);
    assert!(budgets.try_acquire(peer, OutboundSendClass::Data, TopicPriority::Bulk, now).is_some());
}

#[test]
fn control_sends_have_a_small_budget() {
    let mut budgets = PeerOutboundBudgets::new();
    let peer = test_peer_id(2);
    let now = start();
    let mut permits = Vec::new();
    for _ in 0..OUTBOUND_CONTROL_PERMITS_PER_PEER {
        permits.push(
            budgets
                .try_acquire(peer, OutboundSendClass::Control, TopicPriority::Normal, now)
                .expect("within the budget"),
        );
    }
    assert!(budgets.try_acquire(peer, OutboundSendClass::Control, TopicPriority::Critical, now).is_none());
    budgets.release(permits[0], now);
    assert!(budgets.try_acquire(peer, OutboundSendClass::Control, TopicPriority::Normal, now).is_some());
    assert_eq!(OutboundSendClass::for_op(SendOp::Eager), OutboundSendClass::Data);
    for op in [SendOp::IHave, SendOp::IWant, SendOp::AntiEntropy] {
        assert_eq!(OutboundSendClass::for_op(op), OutboundSendClass::Control);
    }
    assert_eq!(OutboundSendClass::Data.label(), "data");
    assert_eq!(OutboundSendClass::Control.label(), "control");
    assert_eq!(SendOp::AntiEntropy.label(), "ANTI_ENTROPY");
}

#[test]
fn duplicate_work_for_one_peer_is_refused_and_cools_it() {
    let topic = TopicId::new([54u8; 32]);
    let slow = test_peer_id(2);
    let healthy = test_peer_id(3);
    let mut topics = topics_with(topic, &[slow, healthy]);
    let mut budgets = PeerOutboundBudgets::new();
    let mut stats = PubSubStageStats::default();
    let mut ids = ProbeIds::new();
    let mut peers = vec![slow; PEER_TIMEOUT_THRESHOLD + 1];
    peers.push(healthy);
    let ctx = context(topic, SendOp::Eager, TopicPriority::Normal);
    let out = claim_topic_send_attempts(&mut topics, &ctx, &mut budgets, &mut stats, &mut ids, &peers, start());
    assert_eq!(out.attempts.len(), 2);
    assert_eq!(out.attempts[0].peer, slow);
    assert_eq!(out.attempts[1].peer, healthy);
    assert_eq!(out.permits.len(), 2);
    assert_eq!(stats.outbound_budget_exhausted, PEER_TIMEOUT_THRESHOLD as u64);
    assert_eq!(stats.message_kinds.prune, 1);
    let suppressed = stats.suppressed_peer_snapshots(start(), 1_000);
    assert_eq!(suppressed.len(), 1);
    assert_eq!(suppressed[0].peer_id, slow);
    assert_eq!(suppressed[0].suppressed_until_unix_ms, 31_000);
    let state = topics.get(&topic).expect("there");
    assert!(state.is_peer_suppressed_at(slow, start()));
    assert!(state.lazy_peers.contains(&slow));
    // The first send to a cooled peer during its cooldown is let through, the next is not.
    budgets.release(out.permits[0], start());
    let mid = start().plus(Duration::from_secs(1));
    let out = claim_topic_send_attempts(&mut topics, &ctx, &mut budgets, &mut stats, &mut ids, &vec![slow, slow], mid);
    assert_eq!(out.attempts.len(), 1);
    assert_eq!(out.attempts[0].kind, SendAttemptKind::CooldownBypass);
    assert_eq!(stats.cooldown_bypass_probes, 1);
}

#[test]
fn critical_overflow_cools_the_peer_at_once() {
    let topic = TopicId::new([44u8; 32]);
    let target = test_peer_id(2);
    let mut topics = topics_with(topic, &[target]);
    let mut budgets = PeerOutboundBudgets::new();
    let mut stats = PubSubStageStats::default();
    let mut ids = ProbeIds::new();
    let ctx = context(topic, SendOp::Eager, TopicPriority::Critical);
    let held = claim_topic_send_attempts(
        &mut topics,
        &ctx,
        &mut budgets,
        &mut stats,
        &mut ids,
        &vec![target; OUTBOUND_CRITICAL_QUEUE_PER_PEER],
        start(),
    );
    assert_eq!(held.attempts.len(), OUTBOUND_CRITICAL_QUEUE_PER_PEER);
    let over =
        claim_topic_send_attempts(&mut topics, &ctx, &mut budgets, &mut stats, &mut ids, &vec![target], start());
    assert!(over.attempts.is_empty());
    assert_eq!(over.critical_hard_errors, vec![target]);
    assert_eq!(stats.message_kinds.prune, 1, "the peer was demoted");
    assert_eq!(stats.outbound_budget_exhausted, 1);
    assert_eq!(stats.suppressed_peer_snapshots(start(), 0)[0].recent_timeout_count, 64);
    assert!(topics.get(&topic).expect("there").is_peer_suppressed_at(target, start()));
    // The rare send during the cooldown finds the queue full as well; the one after it is skipped
    // for cooling.
    let bypass =
        claim_topic_send_attempts(&mut topics, &ctx, &mut budgets, &mut stats, &mut ids, &vec![target], start());
    assert!(bypass.attempts.is_empty());
    assert_eq!(bypass.critical_hard_errors, vec![target]);
    let cooled =
        claim_topic_send_attempts(&mut topics, &ctx, &mut budgets, &mut stats, &mut ids, &vec![target], start());
    assert!(cooled.attempts.is_empty());
    assert_eq!(cooled.critical_cooling, vec![target]);
    assert!(cooled.critical_hard_errors.is_empty());
    for permit in held.permits {
        budgets.release(permit, start());
    }
    assert!(budgets.try_acquire(target, OutboundSendClass::Data, TopicPriority::Critical, start()).is_some());
}

#[test]
fn disconnected_peers_get_no_sends() {
    let topic = TopicId::new([93u8; 32]);
    let connected_peer = test_peer_id(2);
    let ghost_peer = test_peer_id(3);
    let mut topics = topics_with(topic, &[]);
    let mut budgets = PeerOutboundBudgets::new();
    let mut stats = PubSubStageStats::default();
    let mut ids = ProbeIds::new();
    let mut ctx = context(topic, SendOp::Eager, TopicPriority::Normal);
    ctx.connected = connected_snapshot(&vec![connected_peer]);
    let peers = vec![ghost_peer, connected_peer];
    let out = claim_topic_send_attempts(&mut topics, &ctx, &mut budgets, &mut stats, &mut ids, &peers, start());
    assert_eq!(out.attempts.len(), 1);
    assert_eq!(out.attempts[0].peer, connected_peer);
    // Nothing known: nobody counts as disconnected.
    assert!(connected_snapshot(&Vec::new()).is_none());
    ctx.connected = None;
    let out = claim_topic_send_attempts(&mut topics, &ctx, &mut budgets, &mut stats, &mut ids, &vec![ghost_peer], start());
    assert_eq!(out.attempts.len(), 1);
    // Without the topic there is only the budget.
    let mut none: IdMap<TopicId, TopicState> = IdMap::new();
    ctx.connected = Some(IdSet::from_list(&vec![connected_peer]));
    let out = claim_topic_send_attempts(&mut none, &ctx, &mut budgets, &mut stats, &mut ids, &peers, start());
    assert!(out.attempts.is_empty());
    assert_eq!(stats.outbound_budget_exhausted, 1);
}

#[test]
fn recovery_probe_is_claimed_reported_and_settled() {
    let topic = TopicId::new([47u8; 32]);
    let slow = test_peer_id(2);
    let mut topics = topics_with(topic, &[slow]);
    let mut stats = PubSubStageStats::default();
    let mut tracker = PerPeerRttTracker::new();
    let mut budgets = PeerOutboundBudgets::new();
    let mut ids = ProbeIds::new();
    let ctx = context(topic, SendOp::Eager, TopicPriority::Normal);
    let normal = PeerSendAttempt { peer: slow, kind: SendAttemptKind::Normal, recovery_probe_id: None };
    let timed_out = vec![normal; PEER_TIMEOUT_THRESHOLD];
    let probes = record_topic_send_attempt_results(
        &mut topics,
        &ctx,
        &mut stats,
        &mut tracker,
        &Vec::new(),
        &Vec::new(),
        &timed_out,
        start(),
    );
    assert!(probes.is_empty());
    assert_eq!(stats.suppressed_peer_count(), 1);
    assert_eq!(stats.message_kinds.prune, 1);
    assert!(topics.get(&topic).expect("there").lazy_peers.contains(&slow));

    let after = start().plus(Duration::from_secs(31));
    let out = claim_topic_send_attempts(&mut topics, &ctx, &mut budgets, &mut stats, &mut ids, &vec![slow], after);
    let probe = out.attempts[0];
    assert_eq!(probe.kind, SendAttemptKind::RecoveryProbe);
    let rows = stats.suppressed_peer_snapshots(after, 5_000);
    assert_eq!(rows[0].state.label(), "recovery_probe");
    assert!(rows[0].recovery_probe_in_flight);
    assert_eq!(rows[0].recent_timeout_count, PEER_TIMEOUT_THRESHOLD);
    assert_eq!(topics.get(&topic).expect("there").peer_scores.get(&slow).expect("scored").recovery_probes.events, 1);
    assert_eq!(cancelled_recovery_probes(&out.attempts), vec![probe]);
    assert!(cancelled_recovery_probes(&timed_out).is_empty());

    // A failed probe suppresses at once, for longer.
    record_topic_send_attempt_results(
        &mut topics,
        &ctx,
        &mut stats,
        &mut tracker,
        &Vec::new(),
        &Vec::new(),
        &vec![probe],
        after,
    );
    let rows = stats.suppressed_peer_snapshots(after, 5_000);
    assert_eq!(rows.len(), 1);
    assert_eq!(rows[0].state.label(), "cooldown");
    assert_eq!(rows[0].recent_timeout_count, 1);
    assert_eq!(rows[0].cooldown_ms, 60_000);

    // A successful one ends it, and its duration is noted.
    let later = after.plus(Duration::from_secs(61));
    budgets.release(out.permits[0], later);
    let out = claim_topic_send_attempts(&mut topics, &ctx, &mut budgets, &mut stats, &mut ids, &vec![slow], later);
    let sent = vec![PeerSendCompletion { attempt: out.attempts[0], observed: Duration::from_millis(40) }];
    let state = topics.get(&topic).expect("there");
    let (above, elapsed) =
        state.decay_input_at(out.attempts[0], later, ctx.cooling_config).expect("a cooldown above the first");
    assert_eq!((above, elapsed), (Duration::from_secs(30), Duration::from_secs(61)));
    record_topic_send_attempt_results(
        &mut topics,
        &ctx,
        &mut stats,
        &mut tracker,
        &sent,
        &vec![Duration::from_secs(5)],
        &Vec::new(),
        later,
    );
    assert_eq!(stats.suppressed_peer_count(), 0);
    assert_eq!(tracker.p95_ms(&slow), Some(40));
    let cooling = topics.get(&topic).expect("there").peer_cooling.get(&slow).copied().expect("remembered");
    assert!(!cooling.is_suppressed_at(later));
    assert_eq!(cooling.cooldown, Duration::from_secs(35));
}

#[test]
fn suspect_peers_are_looked_at_before_they_are_cooled() {
    let topic = TopicId::new([65u8; 32]);
    let suspect = test_peer_id(65);
    let mut topics = topics_with(topic, &[suspect]);
    let mut stats = PubSubStageStats::default();
    let mut tracker = PerPeerRttTracker::new();
    let mut ctx = context(topic, SendOp::Eager, TopicPriority::Normal);
    ctx.health.insert(suspect, PeerHealth::Suspect);
    let normal = PeerSendAttempt { peer: suspect, kind: SendAttemptKind::Normal, recovery_probe_id: None };
    let probes = record_topic_send_attempt_results(
        &mut topics,
        &ctx,
        &mut stats,
        &mut tracker,
        &Vec::new(),
        &Vec::new(),
        &vec![normal; PEER_TIMEOUT_THRESHOLD],
        start(),
    );
    assert_eq!(probes, vec![suspect]);
    assert_eq!(stats.suppressed_peer_count(), 0);
    let cooling = topics.get(&topic).expect("there").peer_cooling.get(&suspect).copied().expect("counted");
    assert_eq!(cooling.timeout_count, PEER_TIMEOUT_THRESHOLD - 1);
    assert!(cooling.suppressed_until.is_none());
}

#[test]
fn missing_topic_leaves_no_stale_recovery_probe() {
    let topic = TopicId::new([50u8; 32]);
    let peer = test_peer_id(2);
    let mut topics: IdMap<TopicId, TopicState> = IdMap::new();
    let mut stats = PubSubStageStats::default();
    let mut tracker = PerPeerRttTracker::new();
    stats.record_peer_recovery_probe(topic, peer, start(), PEER_TIMEOUT_THRESHOLD, Duration::from_secs(30), 0);
    stats.record_peer_suppressed(topic, test_peer_id(3), start(), 8, Duration::from_secs(30), 0);
    let ctx = context(topic, SendOp::Eager, TopicPriority::Normal);
    let probe = PeerSendAttempt { peer, kind: SendAttemptKind::RecoveryProbe, recovery_probe_id: Some(1) };
    let other = PeerSendAttempt { peer: test_peer_id(3), kind: SendAttemptKind::Normal, recovery_probe_id: None };
    record_topic_send_attempt_results(
        &mut topics,
        &ctx,
        &mut stats,
        &mut tracker,
        &vec![PeerSendCompletion { attempt: probe, observed: Duration::zero() }],
        &vec![Duration::zero()],
        &vec![other],
        start(),
    );
    assert_eq!(stats.suppressed_peer_count(), 1);
    assert_eq!(stats.suppressed_peer_snapshots(start(), 0)[0].peer_id, test_peer_id(3));
}

#[test]
fn outcomes_are_parted_last_send_first() {
    let attempt = |id: u8, kind: SendAttemptKind| PeerSendAttempt {
        peer: test_peer_id(id),
        kind,
        recovery_probe_id: None,
    };
    let observed = Duration::from_millis(3);
    let outcomes = vec![
        (attempt(1, SendAttemptKind::Normal), PeerSendOutcome::Sent { observed }),
        (attempt(2, SendAttemptKind::Normal), PeerSendOutcome::TimedOut),
        (attempt(3, SendAttemptKind::Normal), PeerSendOutcome::Failed),
        (attempt(4, SendAttemptKind::Normal), PeerSendOutcome::Panicked),
        (attempt(5, SendAttemptKind::RecoveryProbe), PeerSendOutcome::Panicked),
        (attempt(6, SendAttemptKind::Normal), PeerSendOutcome::Sent { observed }),
    ];
    let (sent, timed_out) = collect_results(&outcomes);
    let peers: Vec<PeerId> = sent.iter().map(|c| c.attempt.peer).collect();
    assert_eq!(peers, vec![test_peer_id(6), test_peer_id(1)]);
    let peers: Vec<PeerId> = timed_out.iter().map(|a| a.peer).collect();
    assert_eq!(peers, vec![test_peer_id(5), test_peer_id(3), test_peer_id(2)]);
}

#[test]
fn single_sends_settle_by_their_end() {
    let topic = TopicId::new([1u8; 32]);
    let peer = test_peer_id(2);
    let mut topics = topics_with(topic, &[peer]);
    let mut budgets = PeerOutboundBudgets::new();
    let mut stats = PubSubStageStats::default();
    let mut ids = ProbeIds::new();
    let ctx = context(topic, SendOp::IWant, TopicPriority::Critical);
    let mut claim = || {
        claim_topic_send_attempts(&mut topics, &ctx, &mut budgets, &mut stats, &mut ids, &vec![peer], start())
    };
    let first = claim();
    assert!(matches!(single_send(&ctx, &first), SingleSend::Send { attempt, .. } if attempt.peer == peer));
    claim();
    let third = claim();
    assert_eq!(single_send(&ctx, &third), SingleSend::Skip { critical_control: true });
    let data = context(topic, SendOp::Eager, TopicPriority::Critical);
    assert_eq!(single_send(&data, &third), SingleSend::Skip { critical_control: false });

    let normal = PeerSendAttempt { peer, kind: SendAttemptKind::Normal, recovery_probe_id: None };
    let probe = PeerSendAttempt { peer, kind: SendAttemptKind::RecoveryProbe, recovery_probe_id: Some(4) };
    let observed = Duration::from_millis(3);
    let (sent, late, ok) = settle_single_send(normal, PeerSendOutcome::Sent { observed });
    assert_eq!((sent.len(), late.len(), ok), (1, 0, true));
    let (sent, late, ok) = settle_single_send(normal, PeerSendOutcome::TimedOut);
    assert_eq!((sent.len(), late.len(), ok), (0, 1, true));
    let (sent, late, ok) = settle_single_send(normal, PeerSendOutcome::Failed);
    assert_eq!((sent.len(), late.len(), ok), (0, 0, false));
    let (sent, late, ok) = settle_single_send(probe, PeerSendOutcome::Panicked);
    assert_eq!((sent.len(), late, ok), (0, vec![probe], false));
}

#[test]
fn admission_is_asked_for_connected_peers() {
    let topic = TopicId::new([1u8; 32]);
    let (a, b, c) = (test_peer_id(1), test_peer_id(2), test_peer_id(3));
    let mut ctx = context(topic, SendOp::IHave, TopicPriority::Bulk);
    ctx.connected = connected_snapshot(&vec![a, c]);
    ctx.health.insert(c, PeerHealth::Suspect);
    let mut topics = topics_with(topic, &[a]);
    {
        let state = topics.get_mut(&topic).expect("there");
        let normal = PeerSendAttempt { peer: a, kind: SendAttemptKind::Normal, recovery_probe_id: None };
        for _ in 0..PEER_TIMEOUT_THRESHOLD {
            state.record_send_timeout_legacy_at(normal, start());
        }
    }
    let requests = admission_requests(&ctx, topics.get(&topic), &vec![a, b, c], start());
    assert_eq!(
        requests,
        vec![
            AdmissionRequest { peer: a, health: None, cooled: true },
            AdmissionRequest { peer: c, health: Some(PeerHealth::Suspect), cooled: false },
        ]
    );
    let bare = admission_requests(&ctx, None, &vec![a], start());
    assert!(!bare[0].cooled);
    assert_eq!(admitted_peers(&requests, &vec![false, true], TopicPriority::Bulk), (vec![c], vec![c]));
    assert_eq!(admitted_peers(&requests, &vec![true, true], TopicPriority::Normal), (vec![a, c], vec![]));
}

#[test]
fn cooling_is_kept_by_topic() {
    let topic_a = TopicId::new([44u8; 32]);
    let topic_b = TopicId::new([45u8; 32]);
    let peer = test_peer_id(2);
    let mut topics = topics_with(topic_a, &[peer]);
    let other = topics_with(topic_b, &[peer]).remove(&topic_b).expect("there");
    topics.insert(topic_b, other);
    let mut stats = PubSubStageStats::default();
    let mut tracker = PerPeerRttTracker::new();
    let ctx = context(topic_a, SendOp::Eager, TopicPriority::Normal);
    let normal = PeerSendAttempt { peer, kind: SendAttemptKind::Normal, recovery_probe_id: None };
    record_topic_send_attempt_results(
        &mut topics,
        &ctx,
        &mut stats,
        &mut tracker,
        &Vec::new(),
        &Vec::new(),
        &vec![normal; PEER_TIMEOUT_THRESHOLD],
        start(),
    );
    assert!(topics.get(&topic_a).expect("there").lazy_peers.contains(&peer));
    assert!(topics.get(&topic_b).expect("there").eager_peers.contains(&peer));
}

#[test]
fn critical_overflow_settles_a_recovery_probe() {
    let topic = TopicId::new([44u8; 32]);
    let target = test_peer_id(2);
    let mut topics = topics_with(topic, &[target]);
    let mut budgets = PeerOutboundBudgets::new();
    let mut stats = PubSubStageStats::default();
    let mut ids = ProbeIds::new();
    let ctx = context(topic, SendOp::Eager, TopicPriority::Critical);
    let held = claim_topic_send_attempts(
        &mut topics,
        &ctx,
        &mut budgets,
        &mut stats,
        &mut ids,
        &vec![target; OUTBOUND_CRITICAL_QUEUE_PER_PEER],
        start(),
    );
    assert_eq!(held.attempts.len(), OUTBOUND_CRITICAL_QUEUE_PER_PEER);
    let peers = vec![target];
    claim_topic_send_attempts(&mut topics, &ctx, &mut budgets, &mut stats, &mut ids, &peers, start());

    // The cooldown has run out, and the queue is still full.
    let after = start().plus(Duration::from_secs(31));
    let over = claim_topic_send_attempts(&mut topics, &ctx, &mut budgets, &mut stats, &mut ids, &peers, after);
    assert!(over.attempts.is_empty());
    assert!(over.permits.is_empty());
    assert_eq!(over.critical_hard_errors, vec![target]);
    let cooling = topics.get(&topic).expect("there").peer_cooling.get(&target).copied().expect("cooled");
    assert!(!cooling.recovery_probe_in_flight);
    assert_eq!(cooling.recovery_probe_id, None);
    assert_eq!(cooling.suppressed_until, Some(after.plus(Duration::from_secs(60))));
    assert_eq!(cooling.last_suppression_timeout_count, 64);
    let rows = stats.suppressed_peer_snapshots(after, 0);
    assert_eq!(rows.len(), 1);
    assert_eq!(rows[0].state.label(), "cooldown");
    assert_eq!(rows[0].suppressed_for_ms, 60_000);
    assert!(!rows[0].recovery_probe_in_flight);

    // With the queue empty again the next probe goes out after that cooldown.
    for permit in held.permits {
        budgets.release(permit, after);
    }
    let later = after.plus(Duration::from_secs(61));
    let out = claim_topic_send_attempts(&mut topics, &ctx, &mut budgets, &mut stats, &mut ids, &peers, later);
    assert_eq!(out.attempts.len(), 1);
    assert_eq!(out.attempts[0].kind, SendAttemptKind::RecoveryProbe);
}

#[test]
fn critical_overflow_leaves_a_probe_of_another_alone() {
    let mut state = TopicState::with_cache_config(PubSubCacheConfig::default(), start());
    let peer = test_peer_id(2);
    let normal = PeerSendAttempt { peer, kind: SendAttemptKind::Normal, recovery_probe_id: None };
    for _ in 0..PEER_TIMEOUT_THRESHOLD {
        state.record_send_timeout_legacy_at(normal, start());
    }
    let after = start().plus(Duration::from_secs(31));
    let mut ids = ProbeIds::new();
    let (probe, _) = state.claim_send_attempt_at(peer, after, &mut ids).expect("the cooldown is over");
    let stale = PeerSendAttempt { recovery_probe_id: Some(999), ..probe };
    let config = AdaptiveCoolingConfig::default();
    let outcome = state.record_critical_gate_overflow_with_context_at(stale, after, None, config);
    assert!(outcome.suppression.is_none());
    assert!(state.peer_cooling.get(&peer).expect("cooled").recovery_probe_in_flight);
    let outcome =
        state.record_critical_gate_overflow_with_context_at(probe, after, Some(PeerHealth::Dead), config);
    assert_eq!(outcome.suppression.expect("suppressed").cooldown, Duration::from_secs(60));
    assert!(!state.peer_cooling.get(&peer).expect("cooled").recovery_probe_in_flight);
}
