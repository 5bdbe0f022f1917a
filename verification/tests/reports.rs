use saorsa_gossip_pubsub::cache::PubSubCacheConfig;
use saorsa_gossip_pubsub::collections::IdMap;
use saorsa_gossip_pubsub::config::{
    PEER_SUPPRESSION_COOLDOWN_SECS, PEER_TIMEOUT_THRESHOLD, SUPPRESSION_CLEANUP_MAX_INTERVAL_MS,
    SUPPRESSION_CLEANUP_MIN_INTERVAL_MS, SUPPRESSION_CLEANUP_NORMAL_INTERVAL_MS, TOPIC_IDLE_TTL_SECS,
};
use saorsa_gossip_pubsub::connectivity::{connected_snapshot, prune_disconnected_peers};
use saorsa_gossip_pubsub::cooling::PeerCoolingState;
use saorsa_gossip_pubsub::diagnostics::{
    build_admission_state_by_peer, build_peer_scores_by_topic, build_suppressed_peers_by_topic,
    build_topic_cache_snapshots, merge_admission_per_peer_state, PeerScoreSnapshot, QueueDepths,
};
use saorsa_gossip_pubsub::ids::{PeerId, TopicId};
use saorsa_gossip_pubsub::mesh::{MeshScores, PeerRank};
use saorsa_gossip_pubsub::message::{MessageHeader, MessageKind};
use saorsa_gossip_pubsub::peer_scoring::{worst_first, PeerScoring, RankedEntry};
use saorsa_gossip_pubsub::score::PeerScore;
use saorsa_gossip_pubsub::stats::{
    duration_millis_u64, duration_to_ns, unix_millis_after, usize_to_u64, PubSubMessageKindStats, PubSubStage,
    PubSubStageStats, StageTimingStats, SuppressedPeerKey, SuppressedPeerSnapshot, SuppressionState,
};
use saorsa_gossip_pubsub::time::{Duration, Instant};
use saorsa_gossip_pubsub::topic::TopicState;
use saorsa_gossip_pubsub::topics::{
    clean_and_reap_topic_ids, clean_expired_peer_cooling, count_peer_cooling_entries, finish_cleanup,
    known_pubsub_peers, next_suppression_cleanup_interval,
};
use saorsa_gossip_pubsub::upkeep::PeerRole;

fn start() -> Instant {
    Instant { nanos: 100_000_000_000_000 }
}

fn test_peer_id(id: u8) -> PeerId {
    let mut bytes = [0u8; 32];
    bytes[0] = id;
    PeerId::new(bytes)
}

fn new_topic() -> TopicState {
    TopicState::with_cache_config(PubSubCacheConfig::default(), start())
}

fn suppressed_snapshot(topic: TopicId, peer: PeerId, state: SuppressionState) -> SuppressedPeerSnapshot {
    SuppressedPeerSnapshot {
        peer_id: peer,
        topic,
        suppressed_until_unix_ms: 1_000,
        suppressed_for_ms: 100,
        recent_timeout_count: 5,
        affected_topics_count: 1,
        cooldown_ms: 30_000,
        last_suppressed_unix_ms: 900,
        state,
        recovery_probe_in_flight: state == SuppressionState::RecoveryProbe,
    }
}

#[test]
fn diagnostics_group_suppression_by_topic_and_peer_admission_state() {
    let topic_a = TopicId::new([1u8; 32]);
    let topic_b = TopicId::new([2u8; 32]);
    let peer_a = test_peer_id(10);
    let peer_b = test_peer_id(11);
    let suppressed = vec![
        suppressed_snapshot(topic_b, peer_b, SuppressionState::RecoveryProbe),
        suppressed_snapshot(topic_a, peer_a, SuppressionState::Cooldown),
        suppressed_snapshot(topic_a, peer_b, SuppressionState::RecoveryReady),
    ];

    let by_topic = build_suppressed_peers_by_topic(&suppressed);
    let of = |topic: TopicId| by_topic.iter().find(|e| e.0 == topic).map(|e| e.1.clone());
    assert_eq!(of(topic_a).expect("topic a exists"), vec![peer_a, peer_b]);
    assert_eq!(of(topic_b).expect("topic b exists"), vec![peer_b]);
    assert_eq!(by_topic.len(), 2);

    let admission = build_admission_state_by_peer(&suppressed);
    let peer_b_state = admission.get(&peer_b).expect("peer b state");
    assert_eq!(peer_b_state.state.label(), "recovery_probe");
    assert_eq!(peer_b_state.suppressed_topics_count, 2);
    assert_eq!(peer_b_state.recovery_probe_topics_count, 1);
    assert_eq!(peer_b_state.recovery_ready_topics_count, 1);
    assert_eq!(admission.get(&peer_a).expect("peer a state").state.label(), "cooled");
}

#[derive(Clone, Copy, Debug)]
struct Components {
    score: f64,
    outbound_send_timeouts: f64,
}

#[test]
fn diagnostics_peer_scores_by_topic_include_active_cooling_breakdown() {
    let topic = TopicId::new([3u8; 32]);
    let peer = test_peer_id(12);
    let scores = vec![PeerScoreSnapshot {
        peer_id: peer,
        topic,
        role: PeerRole::Cooled,
        scores: Components { score: 0.25, outbound_send_timeouts: 8.0 },
        eager_eligible: false,
    }];
    let suppressed = vec![suppressed_snapshot(topic, peer, SuppressionState::Cooldown)];

    let by_topic = build_peer_scores_by_topic(&scores, &suppressed);
    let breakdown = by_topic.get(&SuppressedPeerKey { topic, peer }).expect("score breakdown");

    assert_eq!(breakdown.role.label(), "cooled");
    assert_eq!(breakdown.suppression_state.map(|s| s.label()), Some("cooldown"));
    assert_eq!(breakdown.recent_timeout_count, Some(5));
    assert_eq!(breakdown.cooldown_ms, Some(30_000));
    assert_eq!(breakdown.last_cool_at_unix_ms, Some(900));
    assert_eq!(breakdown.scores.score, 0.25);
    assert_eq!(breakdown.scores.outbound_send_timeouts, 8.0);
    assert!(!breakdown.eager_eligible);
    let bare = build_peer_scores_by_topic(&scores, &Vec::new());
    assert!(bare.get(&SuppressedPeerKey { topic, peer }).expect("there").suppression_state.is_none());
}

#[test]
fn admissions_are_merged_into_the_standing() {
    let topic = TopicId::new([3u8; 32]);
    let mut standing =
        build_admission_state_by_peer(&vec![suppressed_snapshot(topic, test_peer_id(1), SuppressionState::Cooldown)]);
    let mut held = IdMap::new();
    held.insert(test_peer_id(2), QueueDepths { bulk: 1, normal: 2, critical: 3 });
    merge_admission_per_peer_state(&mut standing, &held);
    assert_eq!(standing.get(&test_peer_id(1)).expect("there").priority_queue_depths, None);
    let two = standing.get(&test_peer_id(2)).expect("there");
    assert_eq!(two.state.label(), "alive");
    assert_eq!(two.priority_queue_depths, Some(QueueDepths { bulk: 1, normal: 2, critical: 3 }));
}

#[test]
fn test_expired_suppression_remains_visible_as_recovery_ready() {
    let mut stats = PubSubStageStats::default();
    let topic = TopicId::new([49u8; 32]);
    let peer = test_peer_id(2);
    stats.record_peer_suppressed(
        topic,
        peer,
        start().checked_minus(Duration::from_millis(1)).expect("clock"),
        PEER_TIMEOUT_THRESHOLD,
        Duration::from_secs(PEER_SUPPRESSION_COOLDOWN_SECS),
        0,
    );

    let suppressed = stats.snapshot(start(), 0).suppressed_peers;
    assert_eq!(suppressed.len(), 1);
    assert_eq!(suppressed[0].peer_id, peer);
    assert_eq!(suppressed[0].topic, topic);
    assert_eq!(suppressed[0].state.label(), "recovery_ready");
    assert!(!suppressed[0].recovery_probe_in_flight);
}

#[test]
fn suppressions_are_listed_by_peer_and_topic() {
    let mut stats = PubSubStageStats::default();
    let until = start().plus(Duration::from_secs(30));
    for (topic, peer) in [(2u8, 9u8), (1, 9), (3, 4)] {
        stats.record_peer_suppressed(
            TopicId::new([topic; 32]),
            test_peer_id(peer),
            until,
            8,
            Duration::from_secs(30),
            77,
        );
    }
    let rows = stats.suppressed_peer_snapshots(start(), 1_000);
    let order: Vec<(PeerId, TopicId)> = rows.iter().map(|r| (r.peer_id, r.topic)).collect();
    assert_eq!(
        order,
        vec![
            (test_peer_id(4), TopicId::new([3; 32])),
            (test_peer_id(9), TopicId::new([1; 32])),
            (test_peer_id(9), TopicId::new([2; 32])),
        ]
    );
    assert_eq!(rows[0].affected_topics_count, 1);
    assert_eq!(rows[1].affected_topics_count, 2);
    assert_eq!(rows[1].suppressed_for_ms, 30_000);
    assert_eq!(rows[1].suppressed_until_unix_ms, 31_000);
    assert_eq!(rows[1].last_suppressed_unix_ms, 77);
    assert_eq!(rows[1].state, SuppressionState::Cooldown);
    stats.clear_topic_suppressions(TopicId::new([1; 32]));
    assert_eq!(stats.suppressed_peer_count(), 2);
    assert!(stats.clear_peer_suppression(TopicId::new([2; 32]), test_peer_id(9)));
    assert!(!stats.clear_peer_suppression(TopicId::new([2; 32]), test_peer_id(9)));
}

#[test]
fn counters_count() {
    let mut kinds = PubSubMessageKindStats::default();
    for kind in [
        MessageKind::Eager,
        MessageKind::Eager,
        MessageKind::IHave,
        MessageKind::IWant,
        MessageKind::AntiEntropy,
        MessageKind::Ping,
        MessageKind::Shuffle,
    ] {
        kinds.record_kind(kind);
    }
    kinds.record_decode_failed();
    kinds.record_prune();
    kinds.record_prunes(4);
    kinds.record_grafts(3);
    let snap = kinds.snapshot();
    assert_eq!((snap.eager, snap.ihave, snap.iwant, snap.anti_entropy, snap.other), (2, 1, 1, 1, 2));
    assert_eq!((snap.decode_failed, snap.prune, snap.graft), (1, 5, 3));

    let mut stage = StageTimingStats::default();
    stage.record(Duration::from_millis(10));
    stage.record(Duration::from_secs(1));
    stage.record(Duration::from_secs(5));
    stage.record(Duration::from_secs(30));
    let snap = stage.snapshot();
    assert_eq!(snap.count, 4);
    assert_eq!(snap.total_ns, 36_010_000_000);
    assert_eq!(snap.max_ns, 30_000_000_000);
    assert_eq!((snap.over_1s_count, snap.over_5s_count, snap.over_30s_count), (3, 2, 1));

    let mut stats = PubSubStageStats::default();
    stats.record(PubSubStage::Verify, Duration::from_secs(2));
    stats.record_per_peer_timeout();
    stats.record_cooldown_bypass_success();
    let snap = stats.snapshot(start(), 0);
    assert_eq!(snap.verify.count, 1);
    assert_eq!(snap.decode.count, 0);
    assert_eq!(snap.republish_per_peer_timeout, 1);
    assert_eq!(snap.cooldown_bypass_successes, 1);
    assert_eq!(snap.suppression_cleanup.current_interval_ms, 60_000);
}

#[test]
fn numbers_are_held_at_their_largest() {
    let huge = Duration { nanos: u128::MAX };
    assert_eq!(duration_millis_u64(huge), u64::MAX);
    assert_eq!(duration_to_ns(huge), u64::MAX);
    assert_eq!(duration_millis_u64(Duration { nanos: 1_999_999 }), 1);
    assert_eq!(unix_millis_after(u64::MAX, Duration::from_millis(1)), u64::MAX);
    assert_eq!(unix_millis_after(5, Duration::from_millis(7)), 12);
    assert_eq!(usize_to_u64(9), 9);
}

#[test]
fn cooling_cleanup_adaptive_interval_shortens_and_lengthens() {
    let normal = Duration::from_millis(SUPPRESSION_CLEANUP_NORMAL_INTERVAL_MS);
    let fast = next_suppression_cleanup_interval(0, 10, normal);
    assert_eq!(fast, Duration::from_millis(30_000));

    let min = next_suppression_cleanup_interval(
        10,
        20,
        Duration::from_millis(SUPPRESSION_CLEANUP_MIN_INTERVAL_MS),
    );
    assert_eq!(min, Duration::from_millis(SUPPRESSION_CLEANUP_MIN_INTERVAL_MS));

    let slow = next_suppression_cleanup_interval(20, 10, normal);
    assert_eq!(slow, Duration::from_millis(SUPPRESSION_CLEANUP_MAX_INTERVAL_MS));
}

#[test]
fn cooling_cleanup_adaptive_removes_expired_excluded_suppression() {
    let topic = TopicId::new([55u8; 32]);
    let peer = test_peer_id(55);
    let now = start();
    let mut topics = IdMap::new();
    let mut state = new_topic();
    state.peer_cooling.insert(
        peer,
        PeerCoolingState {
            timeout_window_started: now,
            timeout_count: 0,
            suppressed_until: Some(now),
            cooldown: Duration::from_secs(PEER_SUPPRESSION_COOLDOWN_SECS),
            last_suppressed_at: Some(now),
            last_suppression_timeout_count: PEER_TIMEOUT_THRESHOLD,
            recovery_probe_in_flight: false,
            recovery_probe_id: None,
            last_bypass_probe_at: None,
        },
    );
    topics.insert(topic, state);

    let mut stats = PubSubStageStats::default();
    stats.record_peer_suppressed(
        topic,
        peer,
        now,
        PEER_TIMEOUT_THRESHOLD,
        Duration::from_secs(PEER_SUPPRESSION_COOLDOWN_SECS),
        0,
    );
    assert_eq!(stats.suppressed_peer_snapshots(now, 0).len(), 1);

    let removed = clean_expired_peer_cooling(&mut topics, &mut stats, now);

    assert_eq!(removed, 1);
    assert_eq!(count_peer_cooling_entries(&topics), 0);
    assert!(stats.suppressed_peer_snapshots(now, 0).is_empty());
}

#[test]
fn cleanup_keeps_the_cooling_of_peers_with_a_role() {
    let topic = TopicId::new([55u8; 32]);
    let peer = test_peer_id(55);
    let now = start();
    let mut state = new_topic();
    let mut cooling = PeerCoolingState::new(now);
    cooling.suppressed_until = Some(now);
    state.peer_cooling.insert(peer, cooling);
    state.lazy_peers.insert(peer);
    let mut topics = IdMap::new();
    topics.insert(topic, state);
    let mut stats = PubSubStageStats::default();
    stats.record_peer_suppressed(topic, peer, now, 8, Duration::from_secs(30), 0);
    assert_eq!(clean_expired_peer_cooling(&mut topics, &mut stats, now), 1);
    assert_eq!(count_peer_cooling_entries(&topics), 1);
    assert!(topics.get(&topic).expect("there").is_peer_suppressed_at(peer, now));
    assert_eq!(clean_expired_peer_cooling(&mut topics, &mut stats, now), 0);
}

#[test]
fn cleanup_ends_with_a_report() {
    let mut stats = PubSubStageStats::default();
    let gone = TopicId::new([1u8; 32]);
    stats.record_peer_suppressed(gone, test_peer_id(1), start(), 8, Duration::from_secs(30), 0);
    stats.record_peer_suppressed(TopicId::new([2u8; 32]), test_peer_id(1), start(), 8, Duration::from_secs(30), 0);
    let next = finish_cleanup(&mut stats, &vec![gone], 0, 2, Duration::from_secs(60), 17, 3);
    assert_eq!(next, Duration::from_secs(30));
    assert_eq!(stats.suppressed_peer_count(), 1);
    let report = stats.suppression_cleanup;
    assert_eq!(report.current_interval_ms, 30_000);
    assert_eq!(report.growth_rate_bits, 17);
    assert_eq!((report.current_entries, report.last_removed), (2, 3));
}

#[test]
fn test_idle_topic_reaper_drops_unsubscribed_topic() {
    let old_activity = start();
    let now = start().plus(Duration::from_secs(TOPIC_IDLE_TTL_SECS + 1));
    let topic = TopicId::new([3u8; 32]);
    let mut state = new_topic();
    state.last_activity = old_activity;

    let mut topics = IdMap::new();
    topics.insert(topic, state);

    let reaped = clean_and_reap_topic_ids(&mut topics, Duration::from_secs(TOPIC_IDLE_TTL_SECS), now).len();

    assert_eq!(reaped, 1);
    assert!(
        !topics.contains_key(&topic),
        "idle topic with no live subscriber should be reaped"
    );
}

#[test]
fn test_idle_topic_reaper_preserves_live_subscriber() {
    let old_activity = start();
    let now = start().plus(Duration::from_secs(TOPIC_IDLE_TTL_SECS + 1));
    let topic = TopicId::new([4u8; 32]);
    let mut state = new_topic();
    state.last_activity = old_activity;
    state.live_subscribers = 1;

    let mut topics = IdMap::new();
    topics.insert(topic, state);

    let reaped = clean_and_reap_topic_ids(&mut topics, Duration::from_secs(TOPIC_IDLE_TTL_SECS), now).len();

    assert_eq!(reaped, 0);
    assert!(
        topics.contains_key(&topic),
        "live local subscribers must not be silently dropped by idle reaping"
    );

    topics.get_mut(&topic).expect("there").live_subscribers = 0;
    let reaped = clean_and_reap_topic_ids(&mut topics, Duration::from_secs(TOPIC_IDLE_TTL_SECS), now).len();

    assert_eq!(reaped, 1);
    assert!(
        !topics.contains_key(&topic),
        "closed subscriber should not keep a quiet topic alive forever"
    );
}

#[test]
fn disconnected_peers_leave_every_topic() {
    let now = start();
    let connected_peer = test_peer_id(2);
    let ghost_peer = test_peer_id(3);
    let topic = TopicId::new([91u8; 32]);
    let mut state = new_topic();
    state.eager_peers.insert(connected_peer);
    state.eager_peers.insert(ghost_peer);
    state.lazy_peers.insert(ghost_peer);
    state.peer_cooling.insert(ghost_peer, PeerCoolingState::new(now));
    state.peer_scores.insert(test_peer_id(7), PeerScore::new_at(now));
    let mut topics = IdMap::new();
    topics.insert(topic, state);
    let known = known_pubsub_peers(&topics);
    assert_eq!(known.len(), 3);
    assert!(known.contains(&test_peer_id(7)));
    let mut stats = PubSubStageStats::default();
    stats.record_peer_suppressed(topic, ghost_peer, now, 8, Duration::from_secs(30), 0);
    let connected = connected_snapshot(&vec![connected_peer]).expect("known");
    prune_disconnected_peers(&mut topics, &connected, &mut stats);
    let state = topics.get(&topic).expect("there");
    assert!(state.eager_peers.contains(&connected_peer));
    assert!(!state.eager_peers.contains(&ghost_peer));
    assert!(!state.lazy_peers.contains(&ghost_peer));
    assert_eq!(stats.message_kinds.prune, 0, "whoever leaves was not demoted");
    assert_eq!(stats.suppressed_peer_count(), 0);
}

#[test]
fn topics_report_their_peers_and_caches() {
    let now = start();
    let topic = TopicId::new([9u8; 32]);
    let mut state = new_topic();
    state.eager_peers.insert(test_peer_id(5));
    state.lazy_peers.insert(test_peer_id(4));
    let mut cooling = PeerCoolingState::new(now);
    cooling.suppressed_until = Some(now.plus(Duration::from_secs(1)));
    state.peer_cooling.insert(test_peer_id(5), cooling);
    let mut score = PeerScore::new_at(now);
    score.record_delivery(now);
    state.peer_scores.insert(test_peer_id(6), score);
    let scores = MeshScores {
        ranks: IdMap::new(),
        unranked: PeerRank { score: 5, challenge: 6 },
        eager_min: 5,
    };
    let rows = state.peer_score_snapshots(topic, now, &scores);
    let listed: Vec<(PeerId, &str, bool)> =
        rows.iter().map(|r| (r.peer_id, r.role.label(), r.eager_eligible)).collect();
    assert_eq!(
        listed,
        vec![
            (test_peer_id(4), "lazy", true),
            (test_peer_id(5), "cooled", false),
            (test_peer_id(6), "excluded", true),
        ]
    );
    assert_eq!(rows[2].scores.messages_delivered, 1);
    assert_eq!(rows[0].scores.messages_delivered, 0);
    assert_eq!(
        state.role_for_peer_at(test_peer_id(5), now.plus(Duration::from_secs(1))).label(),
        "recovery_ready"
    );

    let id = [1u8; 32];
    let header = MessageHeader { version: 1, topic, msg_id: id, kind: MessageKind::Eager, hop: 0, ttl: 10 };
    state.cache_message(id, vec![0u8; 44], header, now);
    let mut topics = IdMap::new();
    topics.insert(topic, state);
    topics.insert(TopicId::new([2u8; 32]), new_topic());
    let caches = build_topic_cache_snapshots(&topics, now.plus(Duration::from_secs(3)));
    assert_eq!(caches.len(), 2);
    assert_eq!(caches[0].topic, TopicId::new([2u8; 32]));
    assert_eq!(caches[0].cache.msg_count, 0);
    assert_eq!(caches[1].cache.total_bytes, 5_800);
    assert_eq!(caches[1].cache.oldest_age_secs, 3);
}

/// The decaying components of a long-term score.
#[derive(Clone, Copy, Debug, Default)]
struct Terms {
    first_deliveries: f64,
    delivery_deficit: f64,
    invalid_messages: f64,
}

fn bump(scoring: &mut PeerScoring<Terms>, topic: TopicId, peer: PeerId, add: fn(&mut Terms)) {
    let mut terms = scoring.entry(topic, peer).map(|e| e.components).unwrap_or_default();
    add(&mut terms);
    scoring.record(topic, peer, start(), terms);
}

fn record_first_delivery(scoring: &mut PeerScoring<Terms>, topic: TopicId, peer: PeerId) {
    bump(scoring, topic, peer, |t| t.first_deliveries += 1.0);
}

fn record_mesh_pruned(scoring: &mut PeerScoring<Terms>, topic: TopicId, peer: PeerId) {
    bump(scoring, topic, peer, |t| t.delivery_deficit += 1.0);
}

fn record_invalid_message(scoring: &mut PeerScoring<Terms>, topic: TopicId, peer: PeerId) {
    bump(scoring, topic, peer, |t| t.invalid_messages += 1.0);
}

fn long_term_score(scoring: &PeerScoring<Terms>, topic: &TopicId, peer: &PeerId) -> f64 {
    let Some(entry) = scoring.entry(*topic, *peer) else {
        return 0.0;
    };
    let in_mesh = scoring.time_in_mesh(*topic, *peer, start(), Duration::from_secs(3600));
    let c = entry.components;
    0.01 * (in_mesh.nanos as f64 / 1e9) + c.first_deliveries - c.delivery_deficit
        - 100.0 * c.invalid_messages * c.invalid_messages
}

fn p(seed: u8) -> PeerId {
    PeerId::new([seed; 32])
}

fn t(seed: u8) -> TopicId {
    TopicId::new([seed; 32])
}

#[test]
fn note_mesh_join_is_idempotent() {
    let mut scoring: PeerScoring<Terms> = PeerScoring::new();
    scoring.note_mesh_join(t(1), p(1), start(), Terms::default());
    let joined_first = scoring.entry(t(1), p(1)).and_then(|e| e.joined_mesh_at).unwrap();
    scoring.note_mesh_join(t(1), p(1), start().plus(Duration::from_secs(9)), Terms::default());
    let joined_second = scoring.entry(t(1), p(1)).and_then(|e| e.joined_mesh_at).unwrap();
    assert_eq!(
        joined_first, joined_second,
        "second note_mesh_join must not reset the P1 clock"
    );
    let later = start().plus(Duration::from_secs(50));
    assert_eq!(
        scoring.time_in_mesh(t(1), p(1), later, Duration::from_secs(3600)),
        Duration::from_secs(50)
    );
    assert_eq!(
        scoring.time_in_mesh(t(1), p(1), later, Duration::from_secs(20)),
        Duration::from_secs(20)
    );
}

#[test]
fn scores_are_isolated_per_topic() {
    let mut scoring: PeerScoring<Terms> = PeerScoring::new();
    let peer = p(1);
    let topic_a = t(10);
    let topic_b = t(20);

    // Peer behaves badly on topic A only.
    for _ in 0..3 {
        record_invalid_message(&mut scoring, topic_a, peer);
    }
    // ...and well on topic B only.
    for _ in 0..2 {
        record_first_delivery(&mut scoring, topic_b, peer);
    }

    let score_a = long_term_score(&scoring, &topic_a, &peer);
    let score_b = long_term_score(&scoring, &topic_b, &peer);
    assert!(
        score_a < -800.0,
        "topic A score reflects 3 invalid msgs only (got {score_a})"
    );
    assert!(
        (score_b - 2.0).abs() < 0.1,
        "topic B score reflects 2 first-deliveries only — NOT blended \
         with topic A's penalty (got {score_b})"
    );
    // Two distinct entries, not one shared one.
    assert_eq!(scoring.tracked_peer_count(), 2);
}

#[test]
fn forget_peer_removes_score_state_across_all_topics() {
    let mut scoring: PeerScoring<Terms> = PeerScoring::new();
    record_first_delivery(&mut scoring, t(1), p(1));
    record_first_delivery(&mut scoring, t(2), p(1));
    record_first_delivery(&mut scoring, t(1), p(2));
    assert_eq!(scoring.tracked_peer_count(), 3);
    scoring.forget_peer(&p(1));
    assert_eq!(
        scoring.tracked_peer_count(),
        1,
        "p(1) forgotten on every topic; p(2) untouched"
    );
    assert_eq!(long_term_score(&scoring, &t(1), &p(1)), 0.0);
    assert_eq!(long_term_score(&scoring, &t(2), &p(1)), 0.0);
    assert!(long_term_score(&scoring, &t(1), &p(2)) > 0.0, "p(2) still tracked");
}

/// A number that orders like the score.
fn order_key(score: f64) -> u64 {
    let bits = score.to_bits();
    if bits >> 63 == 1 {
        !bits
    } else {
        bits | (1 << 63)
    }
}

#[test]
fn snapshot_sorts_lowest_score_first_and_carries_topic() {
    let mut scoring: PeerScoring<Terms> = PeerScoring::new();
    record_first_delivery(&mut scoring, t(1), p(1)); // +1 — best
    record_invalid_message(&mut scoring, t(1), p(2)); // -100 — worst
    record_mesh_pruned(&mut scoring, t(1), p(3)); // -1 — middle

    let entries: Vec<RankedEntry> = scoring
        .entry_keys()
        .into_iter()
        .map(|k| RankedEntry {
            score: order_key(long_term_score(&scoring, &k.topic, &k.peer)),
            topic: k.topic,
            peer: k.peer,
        })
        .collect();
    let snap = worst_first(&entries);
    assert_eq!(snap.len(), 3);
    assert_eq!(snap[0].peer, p(2), "worst peer first");
    assert_eq!(snap[1].peer, p(3), "middle peer second");
    assert_eq!(snap[2].peer, p(1), "best peer last");
    assert!(snap[0].score < snap[1].score);
    assert!(snap[1].score < snap[2].score);
    assert!(
        snap.iter().all(|r| r.topic == t(1)),
        "every snapshot row carries the topic it is scoped to"
    );
    let tied = vec![
        RankedEntry { score: 1, topic: t(2), peer: p(1) },
        RankedEntry { score: 1, topic: t(1), peer: p(2) },
        RankedEntry { score: 1, topic: t(1), peer: p(1) },
    ];
    let order: Vec<(TopicId, PeerId)> = worst_first(&tied).iter().map(|e| (e.topic, e.peer)).collect();
    assert_eq!(order, vec![(t(1), p(1)), (t(1), p(2)), (t(2), p(1))]);
}
