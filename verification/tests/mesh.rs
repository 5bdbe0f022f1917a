use saorsa_gossip_pubsub::cache::PubSubCacheConfig;
use saorsa_gossip_pubsub::collections::IdMap;
use saorsa_gossip_pubsub::config::{
    MAX_EAGER_DEGREE, MIN_EAGER_DEGREE, PEER_SCORE_RETENTION_SECS, PEER_TIMEOUT_THRESHOLD,
};
use saorsa_gossip_pubsub::cooling::{PeerCoolingState, SendAttemptKind};
use saorsa_gossip_pubsub::ids::{PeerId, TopicId};
use saorsa_gossip_pubsub::mesh::{MeshScores, PeerRank};
use saorsa_gossip_pubsub::score::{EvidenceCounter, PeerScore};
use saorsa_gossip_pubsub::stats::PubSubStageStats;
use saorsa_gossip_pubsub::time::{Duration, Instant};
use saorsa_gossip_pubsub::topic::TopicState;

fn start() -> Instant {
    Instant { nanos: 100_000_000_000_000 }
}

fn test_peer_id(id: u8) -> PeerId {
    let mut bytes = [0u8; 32];
    bytes[0] = id;
    PeerId::new(bytes)
}

fn new_topic() -> TopicState {
    TopicState::with_cache_config(PubSubCacheConfig::default(), start())
}

fn weight(counter: &EvidenceCounter, now: Instant) -> f64 {
    let secs = now.saturating_duration_since(counter.updated_at).nanos as f64 / 1e9;
    counter.events as f64 * 0.5_f64.powf(secs / 300.0)
}

/// The composite score of a peer, between zero and one.
fn score_at(score: &PeerScore, now: Instant) -> f64 {
    let response_rate = if score.iwant_requests > 0 {
        score.iwant_responses as f64 / score.iwant_requests as f64
    } else if score.messages_delivered > 0 {
        0.8
    } else {
        0.5
    };
    let unseen = now.saturating_duration_since(score.last_seen).nanos as f64 / 1e9;
    let recency = (1.0 - unseen / 300.0).max(0.0);
    let good = weight(&score.outbound_send_successes, now) + 2.0 * weight(&score.recovery_successes, now);
    let bad = weight(&score.outbound_send_timeouts, now)
        + 3.0 * weight(&score.cooling_events, now)
        + 0.5 * weight(&score.recovery_probes, now);
    let health = if good <= 0.0 && bad <= 0.0 { 1.0 } else { (good + 1.0) / (good + bad + 1.0) };
    let base = response_rate.min(1.0) * 0.6 + recency * 0.4;
    (base * (0.35 + 0.65 * health)).clamp(0.0, 1.0)
}

fn rank(score: f64) -> PeerRank {
    PeerRank { score: score.to_bits(), challenge: (score + 0.20).to_bits() }
}

fn scores(state: &TopicState, now: Instant) -> MeshScores {
    let mut ranks = IdMap::new();
    for peer in state.peer_scores.keys() {
        let score = state.peer_scores.get(&peer).expect("listed");
        ranks.insert(peer, rank(score_at(score, now)));
    }
    MeshScores { ranks, unranked: rank(score_at(&PeerScore::new_at(now), now)), eager_min: 0.45_f64.to_bits() }
}

fn maintain(state: &mut TopicState, now: Instant) -> (usize, usize) {
    let ranked = scores(state, now);
    state.maintain_degree_at(now, &ranked)
}

fn delivering(now: Instant) -> PeerScore {
    let mut score = PeerScore::new_at(now);
    score.record_delivery(now);
    score
}

fn failing(now: Instant) -> PeerScore {
    let mut score = PeerScore::new_at(now);
    for _ in 0..PEER_TIMEOUT_THRESHOLD {
        score.record_outbound_send_timeout_at(now);
    }
    score.record_cooling_event_at(now);
    score
}

#[test]
fn test_score_based_promotion_highest_first() {
    let mut state = new_topic();
    let now = start();

    let peer_high = test_peer_id(10);
    let peer_low = test_peer_id(11);
    let peer_mid = test_peer_id(12);

    state.lazy_peers.insert(peer_high);
    state.lazy_peers.insert(peer_low);
    state.lazy_peers.insert(peer_mid);

    let mut high_score = PeerScore::new_at(now);
    high_score.messages_delivered = 100;
    state.peer_scores.insert(peer_high, high_score);

    let mut low_score = PeerScore::new_at(now);
    low_score.last_seen = now.checked_minus(Duration::from_secs(250)).expect("clock");
    state.peer_scores.insert(peer_low, low_score);

    let mut mid_score = PeerScore::new_at(now);
    mid_score.messages_delivered = 10;
    state.peer_scores.insert(peer_mid, mid_score);

    maintain(&mut state, now);

    assert!(state.eager_peers.contains(&peer_high), "High-scoring peer should be promoted");
    assert!(state.eager_peers.contains(&peer_mid), "Mid-scoring peer should be promoted");
    assert!(
        state.eager_peers.contains(&peer_low),
        "Low-scoring peer should be promoted (not enough peers)"
    );
}

#[test]
fn test_score_based_promotion_avoids_low_score_when_alternatives_exist() {
    let mut state = new_topic();
    let now = start();

    let mut healthy_peers = Vec::new();
    for i in 0..MIN_EAGER_DEGREE {
        let peer = test_peer_id(i as u8 + 30);
        healthy_peers.push(peer);
        state.lazy_peers.insert(peer);
        state.peer_scores.insert(peer, delivering(now));
    }

    let slow_a = test_peer_id(90);
    let slow_b = test_peer_id(91);
    for peer in [slow_a, slow_b] {
        state.lazy_peers.insert(peer);
        state.peer_scores.insert(peer, failing(now));
    }

    let (pruned, grafted) = maintain(&mut state, now);
    assert_eq!(pruned, 0);
    assert_eq!(grafted, MIN_EAGER_DEGREE);
    for peer in healthy_peers {
        assert!(state.eager_peers.contains(&peer), "healthy peer should be promoted");
    }
    assert!(
        state.lazy_peers.contains(&slow_a) && state.lazy_peers.contains(&slow_b),
        "low-score peers should remain LAZY while healthy alternatives exist"
    );
}

#[test]
fn test_score_based_promotion_backfills_low_score_when_healthy_insufficient() {
    let mut state = new_topic();
    let now = start();

    let mut healthy_peers = Vec::new();
    for i in 0..(MIN_EAGER_DEGREE - 2) {
        let peer = test_peer_id(i as u8 + 40);
        healthy_peers.push(peer);
        state.lazy_peers.insert(peer);
        state.peer_scores.insert(peer, delivering(now));
    }

    let mut slow_peers = Vec::new();
    for i in 0..10 {
        let peer = test_peer_id(i as u8 + 70);
        slow_peers.push(peer);
        state.lazy_peers.insert(peer);
        state.peer_scores.insert(peer, failing(now));
    }

    let (pruned, grafted) = maintain(&mut state, now);
    assert_eq!(pruned, 0);
    assert_eq!(
        grafted, MIN_EAGER_DEGREE,
        "mesh should still fill to the minimum degree when healthy candidates are insufficient"
    );
    for peer in healthy_peers {
        assert!(state.eager_peers.contains(&peer), "healthy peer should be promoted first");
    }
    let slow_promoted = slow_peers.iter().filter(|peer| state.eager_peers.contains(peer)).count();
    assert_eq!(
        slow_promoted, 2,
        "only the low-score peers required to fill MIN_EAGER_DEGREE should be backfilled"
    );
}

#[test]
fn test_score_based_demotion_lowest_first() {
    let mut state = new_topic();
    let now = start();

    let mut peers = Vec::new();
    for i in 0..(MAX_EAGER_DEGREE + 2) {
        let peer = test_peer_id(i as u8 + 10);
        peers.push(peer);
        state.eager_peers.insert(peer);

        // All peers have 10 IWANT requests; peer i responds to i of them.
        let mut score = PeerScore::new_at(now);
        score.iwant_requests = 10;
        score.iwant_responses = i as u64;
        state.peer_scores.insert(peer, score);
    }

    let worst_peer = peers[0];
    let second_worst = peers[1];

    maintain(&mut state, now);

    assert_eq!(
        state.eager_peers.len(),
        MAX_EAGER_DEGREE,
        "Should have MAX_EAGER_DEGREE eager peers"
    );
    assert!(state.lazy_peers.contains(&worst_peer), "Worst-scoring peer should be demoted");
    assert!(state.lazy_peers.contains(&second_worst), "Second-worst peer should be demoted");

    let best_peer = peers[MAX_EAGER_DEGREE + 1];
    assert!(state.eager_peers.contains(&best_peer), "Best-scoring peer should remain eager");
}

#[test]
fn test_opportunistic_graft_replaces_low_score_eager_with_better_lazy() {
    let mut state = new_topic();
    let now = start();

    let low_eager = test_peer_id(31);
    for i in 0..MIN_EAGER_DEGREE {
        let peer = test_peer_id(i as u8 + 30);
        state.eager_peers.insert(peer);
        state.peer_scores.insert(peer, delivering(now));
    }
    state.peer_scores.insert(low_eager, failing(now));

    let better_lazy = test_peer_id(90);
    state.lazy_peers.insert(better_lazy);
    let mut better_score = delivering(now);
    for _ in 0..6 {
        better_score.record_outbound_send_success_at(now, SendAttemptKind::Normal);
    }
    state.peer_scores.insert(better_lazy, better_score);

    let (pruned, grafted) = maintain(&mut state, now);

    assert_eq!(pruned, 1);
    assert_eq!(grafted, 1);
    assert!(
        state.lazy_peers.contains(&low_eager),
        "low-score eager peer should be demoted during opportunistic maintenance"
    );
    assert!(
        state.eager_peers.contains(&better_lazy),
        "higher-score lazy peer should replace the low-score eager peer"
    );
    assert_eq!(state.eager_peers.len(), MIN_EAGER_DEGREE);
}

#[test]
fn test_opportunistic_graft_is_rate_limited() {
    let mut state = new_topic();
    let now = start();

    let low_eager_a = test_peer_id(101);
    let low_eager_b = test_peer_id(102);
    for peer in [low_eager_a, low_eager_b] {
        state.eager_peers.insert(peer);
        state.peer_scores.insert(peer, failing(now));
    }
    for i in 0..(MIN_EAGER_DEGREE - 2) {
        let peer = test_peer_id(i as u8 + 110);
        state.eager_peers.insert(peer);
        state.peer_scores.insert(peer, delivering(now));
    }

    let better_lazy_a = test_peer_id(121);
    let better_lazy_b = test_peer_id(122);
    for peer in [better_lazy_a, better_lazy_b] {
        state.lazy_peers.insert(peer);
        let mut score = delivering(now);
        for _ in 0..6 {
            score.record_outbound_send_success_at(now, SendAttemptKind::Normal);
        }
        state.peer_scores.insert(peer, score);
    }

    let first = maintain(&mut state, now);
    let second = maintain(&mut state, now.plus(Duration::from_secs(1)));

    assert_eq!(first, (1, 1));
    assert_eq!(
        second,
        (0, 0),
        "opportunistic replacement should not run on every membership refresh"
    );
    let replaced =
        [better_lazy_a, better_lazy_b].iter().filter(|peer| state.eager_peers.contains(peer)).count();
    assert_eq!(replaced, 1);
    assert_eq!(maintain(&mut state, now.plus(Duration::from_secs(60))), (1, 1));
}

#[test]
fn opportunistic_replacement_works_below_stock_minimum() {
    let mut state = new_topic();
    state.max_eager_degree = 1;
    let now = start();
    let eager = test_peer_id(2);
    let lazy = test_peer_id(3);
    state.eager_peers.insert(eager);
    state.lazy_peers.insert(lazy);
    state.peer_scores.insert(eager, failing(now));
    let mut good = delivering(now);
    for _ in 0..6 {
        good.record_outbound_send_success_at(now, SendAttemptKind::Normal);
    }
    state.peer_scores.insert(lazy, good);
    assert_eq!(maintain(&mut state, now), (1, 1));
    assert_eq!(state.eager_peers.to_vec(), vec![lazy]);
}

#[test]
fn cooling_rescue_replaces_at_capacity() {
    let mut state = new_topic();
    state.max_eager_degree = 1;
    let eager = test_peer_id(2);
    let lazy = test_peer_id(3);
    let now = start();
    state.eager_peers.insert(eager);
    state.lazy_peers.insert(lazy);
    for (peer, seconds) in [(eager, 60), (lazy, 30)] {
        let mut cooling = PeerCoolingState::new(now);
        cooling.suppressed_until = Some(now.plus(Duration::from_secs(seconds)));
        state.peer_cooling.insert(peer, cooling);
    }
    state.live_subscribers = 1;
    assert_eq!(state.rescue_suppressed_eager_peer_if_needed_at(now), Some(lazy));
    assert_eq!(state.eager_peers.to_vec(), vec![lazy]);
    assert!(state.lazy_peers.contains(&eager));
}

#[test]
fn rescue_is_for_subscribed_topics_without_usable_eager_peers() {
    let now = start();
    let suppressed = |secs: u64| {
        let mut cooling = PeerCoolingState::new(now);
        cooling.suppressed_until = Some(now.plus(Duration::from_secs(secs)));
        cooling
    };
    let mut state = new_topic();
    state.eager_peers.insert(test_peer_id(2));
    state.peer_cooling.insert(test_peer_id(2), suppressed(60));
    state.lazy_peers.insert(test_peer_id(3));
    state.peer_cooling.insert(test_peer_id(3), suppressed(90));
    assert_eq!(state.rescue_suppressed_eager_peer_if_needed_at(now), None, "nobody listens");
    state.live_subscribers = 1;
    // There is room: the lazy peer joins without a replacement.
    assert_eq!(state.rescue_suppressed_eager_peer_if_needed_at(now), Some(test_peer_id(3)));
    assert_eq!(state.eager_peers.len(), 2);
    assert_eq!(state.rescue_suppressed_eager_peer_if_needed_at(now), None, "no lazy peer is left");
    // A lazy peer that recovers later than every eager one replaces none of them.
    state.max_eager_degree = 2;
    state.lazy_peers.insert(test_peer_id(4));
    state.peer_cooling.insert(test_peer_id(4), suppressed(120));
    assert_eq!(state.rescue_suppressed_eager_peer_if_needed_at(now), None);
    // An eager peer that is not suppressed needs no rescue.
    state.peer_cooling.remove(&test_peer_id(2));
    state.peer_cooling.insert(test_peer_id(4), suppressed(1));
    assert_eq!(state.rescue_suppressed_eager_peer_if_needed_at(now), None);
}

#[test]
fn ceiling_bounds_grafts_and_rebalances() {
    for degree in [0usize, 1, 2, 8, 16] {
        let mut state = new_topic();
        let now = start();
        let maximum = if degree == 0 { 12 } else { degree };
        let minimum = 6.min(maximum);
        let peers: Vec<PeerId> = (10..40).map(test_peer_id).collect();
        let ranked = scores(&state, now);
        state.set_eager_degree_ceiling(degree, now, &ranked);
        let mut stats = PubSubStageStats::default();
        state.initialize_topic_peers(&mut stats, &peers, now, &ranked);
        let ranked = scores(&state, now);
        state.set_topic_peers(&mut stats, TopicId::new([1; 32]), &peers, now, &ranked);
        assert_eq!(stats.message_kinds.graft, minimum as u64);
        assert_eq!(state.max_eager_degree, maximum);
        assert_eq!(state.eager_peers.len(), minimum);
        for peer in &peers {
            state.graft_peer_at(*peer, now);
            assert!(state.eager_peers.len() <= maximum);
        }
        assert_eq!(state.eager_peers.len(), maximum);
        assert!(state.eager_peers.to_vec().iter().all(|p| !state.lazy_peers.contains(p)));
    }
    let mut state = new_topic();
    let now = start();
    let mut stats = PubSubStageStats::default();
    let ranked = scores(&state, now);
    let peers: Vec<PeerId> = (10..30).map(test_peer_id).collect();
    assert_eq!(state.initialize_topic_peers(&mut stats, &peers, now, &ranked), (0, 6));
    assert_eq!((stats.message_kinds.prune, stats.message_kinds.graft), (0, 6));
    let ranked = scores(&state, now);
    assert_eq!(state.set_eager_degree_ceiling(2, now, &ranked), (4, 0));
    assert_eq!(state.eager_peers.len(), 2);
    let ranked = scores(&state, now);
    assert_eq!(state.set_eager_degree_ceiling(0, now, &ranked), (0, 4));
    assert_eq!(state.eager_peers.len(), 6);
    assert_eq!(state.max_eager_degree, 12);
}

#[test]
fn setting_the_peers_prunes_and_adds() {
    let mut state = new_topic();
    let now = start();
    let (a, b, c) = (test_peer_id(2), test_peer_id(3), test_peer_id(4));
    state.eager_peers.insert(a);
    state.lazy_peers.insert(b);
    state.peer_cooling.insert(a, PeerCoolingState::new(now));
    let topic = TopicId::new([1; 32]);
    let mut stats = PubSubStageStats::default();
    stats.record_peer_suppressed(topic, a, now, 8, Duration::from_secs(30), 7);
    stats.record_peer_suppressed(topic, b, now, 8, Duration::from_secs(30), 7);
    let ranked = scores(&state, now);
    state.set_topic_peers(&mut stats, topic, &vec![b, c], now, &ranked);
    assert_eq!(stats.suppressed_peer_count(), 1);
    assert!(!state.eager_peers.contains(&a) && !state.lazy_peers.contains(&a));
    assert!(state.eager_peers.contains(&b) && !state.lazy_peers.contains(&b));
    assert!(state.eager_peers.contains(&c));
    assert!(!state.peer_cooling.contains_key(&a));
}

#[test]
fn prune_and_graft_undo_each_other() {
    let mut state = new_topic();
    let now = start();
    let peer = test_peer_id(9);
    assert!(!state.prune_peer(peer));
    assert!(state.add_new_peer_lazy(peer));
    assert!(!state.add_new_peer_lazy(peer));
    assert!(state.graft_peer_at(peer, now));
    assert!(!state.graft_peer_at(peer, now));
    assert!(state.prune_peer(peer));
    assert!(state.lazy_peers.contains(&peer));
    assert!(state.graft_peer_at(peer, now));
    assert!(state.eager_peers.contains(&peer) && !state.lazy_peers.contains(&peer));
}

#[test]
fn test_peer_score_cleanup_retains_active_send_side_evidence() {
    let mut state = new_topic();
    let now = start();
    let peer = test_peer_id(22);

    let stale_seen =
        now.checked_minus(Duration::from_secs(PEER_SCORE_RETENTION_SECS + 1)).expect("clock");
    let mut score = PeerScore::new_at(stale_seen);
    score.last_seen = stale_seen;
    score.record_outbound_send_timeout_at(now);
    state.peer_scores.insert(peer, score);

    state.clean_cache(now);
    assert!(
        state.peer_scores.contains_key(&peer),
        "fresh send-side health evidence should keep a stale inbound score alive"
    );
}

#[test]
fn test_stale_peer_scores_cleaned() {
    let mut state = new_topic();
    let now = start();

    let fresh_peer = test_peer_id(20);
    let stale_peer = test_peer_id(21);

    state.peer_scores.insert(fresh_peer, PeerScore::new_at(now));

    let mut stale_score = PeerScore::new_at(now);
    stale_score.last_seen =
        now.checked_minus(Duration::from_secs(PEER_SCORE_RETENTION_SECS + 1)).expect("clock");
    state.peer_scores.insert(stale_peer, stale_score);

    state.clean_cache(now);

    assert!(state.peer_scores.contains_key(&fresh_peer), "Fresh peer score should be retained");
    assert!(!state.peer_scores.contains_key(&stale_peer), "Stale peer score should be cleaned up");
}

#[test]
fn evidence_is_counted_with_its_time() {
    let now = start();
    let later = now.plus(Duration::from_secs(5));
    let mut score = PeerScore::new_at(now);
    assert_eq!(score.last_activity(), now);
    score.record_recovery_probe_at(later);
    assert_eq!(score.last_activity(), later);
    score.record_outbound_send_success_at(now, SendAttemptKind::RecoveryProbe);
    assert_eq!(score.outbound_send_successes.events, 1);
    assert_eq!(score.recovery_successes.events, 1);
    score.record_iwant_request();
    score.record_iwant_response(later);
    assert_eq!((score.iwant_requests, score.iwant_responses), (1, 1));
    score.record_seen_at(now);
    assert_eq!(score.last_seen, later, "an earlier sight does not count");
}
