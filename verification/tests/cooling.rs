use saorsa_gossip_pubsub::cache::PubSubCacheConfig;
use saorsa_gossip_pubsub::collections::IdMap;
use saorsa_gossip_pubsub::config::{
    PEER_COOLDOWN_BYPASS_MIN_INTERVAL_SECS, PEER_SUPPRESSION_COOLDOWN_SECS, PEER_TIMEOUT_THRESHOLD,
    PEER_TIMEOUT_WINDOW_SECS,
};
use saorsa_gossip_pubsub::cooling::{
    PeerCoolingState, PeerHealth, PeerSendAttempt, PeerSuppressionEvent, ProbeIds, SendAttemptKind,
};
use saorsa_gossip_pubsub::ids::PeerId;
use saorsa_gossip_pubsub::mesh::{MeshScores, PeerRank};
use saorsa_gossip_pubsub::time::{Duration, Instant};
use saorsa_gossip_pubsub::timing::{AdaptiveCoolingConfig, ADAPTIVE_COOLDOWN_INITIAL_SECS};
use saorsa_gossip_pubsub::topic::TopicState;

fn start() -> Instant {
    Instant { nanos: 100_000_000_000_000 }
}

fn test_peer_id(id: u8) -> PeerId {
    let mut bytes = [0u8; 32];
    bytes[0] = id;
    PeerId::new(bytes)
}

fn new_topic() -> TopicState {
    TopicState::with_cache_config(PubSubCacheConfig::default(), start())
}

fn normal_send_attempt(peer: PeerId) -> PeerSendAttempt {
    PeerSendAttempt { peer, kind: SendAttemptKind::Normal, recovery_probe_id: None }
}

fn cooldown() -> Duration {
    Duration::from_secs(PEER_SUPPRESSION_COOLDOWN_SECS)
}

fn millis(n: u64) -> Duration {
    Duration::from_millis(n)
}

fn timeout_at(state: &mut TopicState, attempt: PeerSendAttempt, now: Instant) -> Option<PeerSuppressionEvent> {
    state.record_send_timeout_legacy_at(attempt, now).suppression
}

/// What 0.97 per second leaves of the amount that a success would let decay.
fn left_above(state: &TopicState, attempt: PeerSendAttempt, now: Instant, config: AdaptiveCoolingConfig) -> Duration {
    match state.decay_input_at(attempt, now, config) {
        Some((above, elapsed)) => {
            let secs = elapsed.nanos as f64 / 1e9;
            Duration { nanos: (above.nanos as f64 * 0.97_f64.powf(secs)).round() as u128 }
        }
        None => Duration::zero(),
    }
}

fn success_with(state: &mut TopicState, attempt: PeerSendAttempt, now: Instant, config: AdaptiveCoolingConfig) -> bool {
    let left = left_above(state, attempt, now, config);
    state.record_send_success_with_context_at(attempt, now, config, left)
}

fn success_at(state: &mut TopicState, attempt: PeerSendAttempt, now: Instant) -> bool {
    success_with(state, attempt, now, AdaptiveCoolingConfig::default())
}

/// Every peer has the same middling score.
fn even_scores() -> MeshScores {
    MeshScores { ranks: IdMap::new(), unranked: PeerRank { score: 7, challenge: 9 }, eager_min: 4 }
}

#[test]
fn adaptive_alive_timeout_uses_initial_cooldown_at_threshold() {
    let mut state = new_topic();
    let peer = test_peer_id(61);
    state.eager_peers.insert(peer);
    let now = start();
    let cooling_config = AdaptiveCoolingConfig::default();

    for i in 0..(PEER_TIMEOUT_THRESHOLD - 1) {
        let outcome = state.record_send_timeout_with_context_at(
            normal_send_attempt(peer),
            now.plus(millis(i as u64)),
            Some(PeerHealth::Alive),
            cooling_config,
        );
        assert!(outcome.suppression.is_none());
        assert!(!outcome.request_indirect_probe);
    }

    let outcome = state.record_send_timeout_with_context_at(
        normal_send_attempt(peer),
        now.plus(millis(PEER_TIMEOUT_THRESHOLD as u64)),
        Some(PeerHealth::Alive),
        cooling_config,
    );
    let event = outcome.suppression.expect("alive peer should still cool at timeout threshold");

    assert!(!outcome.request_indirect_probe);
    assert_eq!(event.recent_timeout_count, PEER_TIMEOUT_THRESHOLD);
    assert_eq!(event.cooldown, Duration::from_secs(ADAPTIVE_COOLDOWN_INITIAL_SECS));
    assert!(state.lazy_peers.contains(&peer));
    assert!(!state.eager_peers.contains(&peer));
    assert!(event.demoted);
}

#[test]
fn suspect_health_holds_cooling_and_requests_probe_at_threshold() {
    let mut state = new_topic();
    let peer = test_peer_id(62);
    state.eager_peers.insert(peer);
    let now = start();
    let cooling_config = AdaptiveCoolingConfig::default();

    for i in 0..(PEER_TIMEOUT_THRESHOLD - 1) {
        let outcome = state.record_send_timeout_with_context_at(
            normal_send_attempt(peer),
            now.plus(millis(i as u64)),
            Some(PeerHealth::Suspect),
            cooling_config,
        );
        assert!(outcome.suppression.is_none());
        assert!(!outcome.request_indirect_probe);
    }

    let outcome = state.record_send_timeout_with_context_at(
        normal_send_attempt(peer),
        now.plus(millis(PEER_TIMEOUT_THRESHOLD as u64)),
        Some(PeerHealth::Suspect),
        cooling_config,
    );

    assert!(outcome.suppression.is_none());
    assert!(outcome.request_indirect_probe);
    assert!(state.eager_peers.contains(&peer));
    assert!(!state.lazy_peers.contains(&peer));
    let cooling = state.peer_cooling.get(&peer).expect("suspect peer retains sub-threshold cooling state");
    assert_eq!(cooling.timeout_count, PEER_TIMEOUT_THRESHOLD - 1);
    assert!(cooling.suppressed_until.is_none());
}

#[test]
fn dead_health_escalates_cooling_immediately() {
    let mut state = new_topic();
    let peer = test_peer_id(63);
    state.eager_peers.insert(peer);
    let now = start();
    let cooling_config = AdaptiveCoolingConfig::default();

    let outcome = state.record_send_timeout_with_context_at(
        normal_send_attempt(peer),
        now,
        Some(PeerHealth::Dead),
        cooling_config,
    );
    let event = outcome.suppression.expect("dead peer should cool on first observed timeout");

    assert_eq!(event.recent_timeout_count, 1);
    assert_eq!(event.cooldown, cooling_config.escalate_on_dead(Duration::zero()));
    assert!(state.is_peer_suppressed_at(peer, now));
    assert!(state.lazy_peers.contains(&peer));
    assert!(!state.eager_peers.contains(&peer));
}

#[test]
fn successful_send_decays_adaptive_cooldown_after_suppression() {
    let mut state = new_topic();
    let peer = test_peer_id(64);
    let now = start();
    let cooling_config = AdaptiveCoolingConfig::default();
    let current = cooling_config.initial.checked_mul(4).expect("test cooldown multiplier fits");
    let thirty_ago = now.checked_minus(Duration::from_secs(30)).expect("clock");
    state.peer_cooling.insert(
        peer,
        PeerCoolingState {
            timeout_window_started: thirty_ago,
            timeout_count: PEER_TIMEOUT_THRESHOLD - 1,
            suppressed_until: None,
            cooldown: current,
            last_suppressed_at: Some(thirty_ago),
            last_suppression_timeout_count: PEER_TIMEOUT_THRESHOLD,
            recovery_probe_in_flight: false,
            recovery_probe_id: None,
            last_bypass_probe_at: None,
        },
    );

    assert!(!success_with(&mut state, normal_send_attempt(peer), now, cooling_config));
    let cooling = state.peer_cooling.get(&peer).expect("normal success keeps cooling record for future adaptation");
    assert!(
        cooling.cooldown < current,
        "success should decay cooldown from {:?} to {:?}",
        current,
        cooling.cooldown
    );
    assert!(cooling.cooldown >= cooling_config.initial);
    assert_eq!(cooling.timeout_count, 0);
    let decayed = cooling.cooldown;

    let later = now.plus(Duration::from_secs(1));
    for i in 0..(PEER_TIMEOUT_THRESHOLD - 1) {
        let outcome = state.record_send_timeout_with_context_at(
            normal_send_attempt(peer),
            later.plus(millis(i as u64)),
            Some(PeerHealth::Alive),
            cooling_config,
        );
        assert!(outcome.suppression.is_none());
    }
    let outcome = state.record_send_timeout_with_context_at(
        normal_send_attempt(peer),
        later.plus(millis(PEER_TIMEOUT_THRESHOLD as u64)),
        Some(PeerHealth::Alive),
        cooling_config,
    );
    let event = outcome.suppression.expect("next suppression should use decayed cooldown memory");
    assert_eq!(event.cooldown, cooling_config.next_cooldown(decayed));
}

#[test]
fn test_peer_cooling_requires_successful_probe_after_cooldown() {
    let mut state = new_topic();
    let mut ids = ProbeIds::new();
    let peer = test_peer_id(2);
    state.eager_peers.insert(peer);

    let now = start();
    for _ in 0..PEER_TIMEOUT_THRESHOLD {
        let _ = timeout_at(&mut state, normal_send_attempt(peer), now);
    }

    assert!(
        state.is_peer_suppressed_at(peer, now),
        "peer should be suppressed after threshold timeouts"
    );
    assert!(state.lazy_peers.contains(&peer));

    let after_cooldown = now.plus(cooldown()).plus(millis(1));
    let (_pruned, grafted) = state.maintain_degree_at(after_cooldown, &even_scores());

    assert_eq!(grafted, 0, "expired cooling should wait for one recovery probe");
    assert!(
        !state.eager_peers.contains(&peer),
        "peer should not re-enter EAGER before a successful recovery probe"
    );
    assert!(state.is_peer_suppressed_at(peer, after_cooldown));

    let (attempt, event) = state
        .claim_send_attempt_at(peer, after_cooldown, &mut ids)
        .expect("expired cooling should admit exactly one recovery probe");
    assert_eq!(attempt.kind, SendAttemptKind::RecoveryProbe);
    assert!(event.is_some());
    assert!(
        state.claim_send_attempt_at(peer, after_cooldown, &mut ids).is_none(),
        "second recovery probe must be skipped while first is in flight"
    );

    assert!(
        success_at(&mut state, attempt, after_cooldown),
        "successful recovery probe should clear cooling"
    );
    let (_pruned, grafted) = state.maintain_degree_at(after_cooldown, &even_scores());
    assert_eq!(grafted, 1, "cleared peer can be grafted again");
    assert!(state.eager_peers.contains(&peer));
    assert!(!state.is_peer_suppressed_at(peer, after_cooldown));
}

#[test]
fn test_failed_recovery_probe_immediately_extends_cooldown() {
    let mut state = new_topic();
    let mut ids = ProbeIds::new();
    let peer = test_peer_id(2);
    state.eager_peers.insert(peer);

    let now = start();
    for _ in 0..PEER_TIMEOUT_THRESHOLD {
        let _ = timeout_at(&mut state, normal_send_attempt(peer), now);
    }

    let after_cooldown = now.plus(cooldown()).plus(millis(1));
    let (attempt, _) = state
        .claim_send_attempt_at(peer, after_cooldown, &mut ids)
        .expect("expired cooling should admit one recovery probe");
    assert_eq!(attempt.kind, SendAttemptKind::RecoveryProbe);

    let event = timeout_at(&mut state, attempt, after_cooldown)
        .expect("failed recovery probe should immediately re-suppress");
    assert_eq!(
        event.recent_timeout_count, 1,
        "failed probe should not need another full timeout window"
    );
    assert_eq!(
        event.cooldown,
        cooldown().checked_mul(2).expect("cooldown doubles"),
        "failed probe should apply exponential backoff"
    );
    assert!(state.is_peer_suppressed_at(peer, after_cooldown));
    assert!(state.lazy_peers.contains(&peer));
    assert!(!state.eager_peers.contains(&peer));
}

#[test]
fn test_cooldown_bypass_allows_rate_limited_send_during_suppression() {
    let mut state = new_topic();
    let mut ids = ProbeIds::new();
    let peer = test_peer_id(2);
    state.eager_peers.insert(peer);

    let now = start();
    for _ in 0..PEER_TIMEOUT_THRESHOLD {
        let _ = timeout_at(&mut state, normal_send_attempt(peer), now);
    }
    assert!(state.is_peer_suppressed_at(peer, now));

    // Mid-cooldown: the first claim is admitted as a bypass send.
    let mid = now.plus(Duration::from_secs(1));
    let (attempt, event) = state
        .claim_send_attempt_at(peer, mid, &mut ids)
        .expect("suppressed peer should admit one rate-limited bypass send");
    assert_eq!(attempt.kind, SendAttemptKind::CooldownBypass);
    assert!(event.is_none(), "bypass is not a recovery-probe event");

    // A second claim inside the bypass interval must be rejected.
    let interval = Duration::from_secs(PEER_COOLDOWN_BYPASS_MIN_INTERVAL_SECS);
    let inside = mid.plus(interval).checked_minus(millis(1)).expect("clock");
    assert!(
        state.claim_send_attempt_at(peer, inside, &mut ids).is_none(),
        "bypass must be rate-limited to one send per interval"
    );

    // Once the interval elapses another bypass send is admitted.
    let next = mid.plus(interval);
    let (attempt2, _) = state
        .claim_send_attempt_at(peer, next, &mut ids)
        .expect("bypass should re-arm after the rate-limit interval");
    assert_eq!(attempt2.kind, SendAttemptKind::CooldownBypass);

    // A successful bypass send must not clear the suppression.
    assert!(!success_at(&mut state, attempt2, next));
    assert!(
        state.is_peer_suppressed_at(peer, next),
        "bypass success must not lift the suppression early"
    );
    assert!(
        !state.can_graft_peer_at(peer, next),
        "bypass success must not re-graft the peer into EAGER"
    );
}

#[test]
fn test_cooldown_bypass_success_does_not_shortcut_recovery_probe() {
    let mut state = new_topic();
    let mut ids = ProbeIds::new();
    let peer = test_peer_id(2);
    state.eager_peers.insert(peer);

    let now = start();
    for _ in 0..PEER_TIMEOUT_THRESHOLD {
        let _ = timeout_at(&mut state, normal_send_attempt(peer), now);
    }
    let suppressed_until = state
        .peer_cooling
        .get(&peer)
        .and_then(|cooling| cooling.suppressed_until)
        .expect("peer is suppressed");

    let mid = now.plus(Duration::from_secs(1));
    let (attempt, _) = state
        .claim_send_attempt_at(peer, mid, &mut ids)
        .expect("bypass send admitted during cooldown");
    assert_eq!(attempt.kind, SendAttemptKind::CooldownBypass);
    assert!(!success_at(&mut state, attempt, mid));
    assert_eq!(
        state.peer_cooling.get(&peer).and_then(|cooling| cooling.suppressed_until),
        Some(suppressed_until),
        "bypass success must leave the cooldown deadline untouched"
    );

    // After genuine expiry the peer still goes through the recovery probe.
    let after_cooldown = now.plus(cooldown()).plus(millis(1));
    let (probe, event) = state
        .claim_send_attempt_at(peer, after_cooldown, &mut ids)
        .expect("expired cooling should admit a recovery probe");
    assert_eq!(probe.kind, SendAttemptKind::RecoveryProbe);
    assert!(event.is_some());
    assert!(
        success_at(&mut state, probe, after_cooldown),
        "successful post-cooldown probe clears cooling"
    );
    assert!(!state.is_peer_suppressed_at(peer, after_cooldown));
}

#[test]
fn test_cooldown_bypass_timeout_does_not_extend_suppression() {
    let mut state = new_topic();
    let mut ids = ProbeIds::new();
    let peer = test_peer_id(2);
    state.eager_peers.insert(peer);

    let now = start();
    for _ in 0..PEER_TIMEOUT_THRESHOLD {
        let _ = timeout_at(&mut state, normal_send_attempt(peer), now);
    }
    let (suppressed_until, old_cooldown) = {
        let cooling = state.peer_cooling.get(&peer).expect("peer is cooling");
        (cooling.suppressed_until, cooling.cooldown)
    };

    let mid = now.plus(Duration::from_secs(1));
    let (attempt, _) = state
        .claim_send_attempt_at(peer, mid, &mut ids)
        .expect("bypass send admitted during cooldown");
    assert_eq!(attempt.kind, SendAttemptKind::CooldownBypass);

    assert!(
        timeout_at(&mut state, attempt, mid.plus(Duration::from_secs(1))).is_none(),
        "bypass timeout must not emit a new suppression event"
    );
    let cooling = state.peer_cooling.get(&peer).expect("peer is cooling");
    assert_eq!(cooling.suppressed_until, suppressed_until);
    assert_eq!(cooling.cooldown, old_cooldown);
    assert!(state.is_peer_suppressed_at(peer, mid));
}

#[test]
fn test_stale_recovery_probe_result_cannot_recreate_or_clear_cooling() {
    let mut state = new_topic();
    let mut ids = ProbeIds::new();
    let peer = test_peer_id(2);
    state.eager_peers.insert(peer);

    let now = start();
    for _ in 0..PEER_TIMEOUT_THRESHOLD {
        let _ = timeout_at(&mut state, normal_send_attempt(peer), now);
    }

    let after_cooldown = now.plus(cooldown()).plus(millis(1));
    let (old_attempt, _) = state
        .claim_send_attempt_at(peer, after_cooldown, &mut ids)
        .expect("expired cooling should admit one recovery probe");
    assert_eq!(old_attempt.kind, SendAttemptKind::RecoveryProbe);
    let score_before_stale = state.peer_scores.get(&peer).expect("peer score exists").outbound_send_timeouts;

    state.peer_cooling.remove(&peer);
    assert!(
        timeout_at(&mut state, old_attempt, after_cooldown).is_none(),
        "stale recovery timeout must not recreate cooling after peer removal"
    );
    assert!(
        !state.peer_cooling.contains_key(&peer),
        "stale recovery timeout must leave removed peer absent"
    );
    let score_after_stale = state.peer_scores.get(&peer).expect("peer score remains").outbound_send_timeouts;
    assert_eq!(
        score_after_stale, score_before_stale,
        "stale recovery timeout must not add score penalties"
    );

    let later = after_cooldown.plus(Duration::from_secs(PEER_TIMEOUT_WINDOW_SECS)).plus(millis(1));
    for _ in 0..PEER_TIMEOUT_THRESHOLD {
        let _ = timeout_at(&mut state, normal_send_attempt(peer), later);
    }
    {
        let cooling = state.peer_cooling.get_mut(&peer).expect("peer is cooling");
        cooling.suppressed_until = later.checked_minus(millis(1));
    }
    let (new_attempt, _) = state
        .claim_send_attempt_at(peer, later, &mut ids)
        .expect("new cooling should admit its own recovery probe");
    assert_ne!(
        old_attempt.recovery_probe_id, new_attempt.recovery_probe_id,
        "recovery probes should carry unique ownership tokens"
    );

    assert!(
        !success_at(&mut state, old_attempt, later),
        "stale recovery success must not clear a newer in-flight probe"
    );
    let cooling = state.peer_cooling.get(&peer).expect("peer stays cooling");
    assert!(
        cooling.matches_recovery_probe(new_attempt.recovery_probe_id),
        "new recovery probe ownership should remain intact"
    );
}

#[test]
fn timeouts_in_different_windows_do_not_add_up() {
    let mut state = new_topic();
    let peer = test_peer_id(5);
    let mut now = start();
    for _ in 0..4 {
        for _ in 0..(PEER_TIMEOUT_THRESHOLD - 1) {
            assert!(timeout_at(&mut state, normal_send_attempt(peer), now).is_none());
        }
        now = now.plus(Duration::from_secs(PEER_TIMEOUT_WINDOW_SECS)).plus(millis(1));
    }
    assert!(!state.is_peer_suppressed_at(peer, now));
    // Exactly at the end of the window the timeouts still belong together.
    let begin = now;
    for _ in 0..(PEER_TIMEOUT_THRESHOLD - 1) {
        assert!(timeout_at(&mut state, normal_send_attempt(peer), begin).is_none());
    }
    let edge = begin.plus(Duration::from_secs(PEER_TIMEOUT_WINDOW_SECS));
    let event = timeout_at(&mut state, normal_send_attempt(peer), edge).expect("threshold reached");
    assert_eq!(event.recent_timeout_count, PEER_TIMEOUT_THRESHOLD);
    assert!(!event.demoted, "the peer was not eager");
    assert_eq!(event.suppressed_until, edge.plus(cooldown()));
}

#[test]
fn verified_message_ends_cooling_and_starts_the_count_anew() {
    let mut state = new_topic();
    let peer = test_peer_id(6);
    let now = start();
    for _ in 0..(PEER_TIMEOUT_THRESHOLD - 1) {
        assert!(timeout_at(&mut state, normal_send_attempt(peer), now).is_none());
    }
    assert!(state.record_inbound_peer_activity_at(peer, now));
    assert!(!state.record_inbound_peer_activity_at(peer, now));
    for _ in 0..(PEER_TIMEOUT_THRESHOLD - 1) {
        assert!(timeout_at(&mut state, normal_send_attempt(peer), now).is_none());
    }
    assert_eq!(
        state.peer_cooling.get(&peer).expect("cooling").timeout_count,
        PEER_TIMEOUT_THRESHOLD - 1
    );
}

#[test]
fn legacy_cooldown_doubles_up_to_its_longest() {
    let mut state = PeerCoolingState::new(start());
    assert_eq!(state.next_legacy_cooldown(), Duration::from_secs(30));
    state.suppressed_until = Some(start());
    state.cooldown = Duration::from_secs(100);
    assert_eq!(state.next_legacy_cooldown(), Duration::from_secs(200));
    state.cooldown = Duration::from_secs(200);
    assert_eq!(state.next_legacy_cooldown(), Duration::from_secs(300));
    state.suppressed_until = None;
    assert_eq!(state.next_legacy_cooldown(), Duration::from_secs(30));
    assert_eq!(
        state.next_adaptive_cooldown(AdaptiveCoolingConfig::default()),
        Duration::from_secs(300)
    );
    assert_eq!(state.dead_cooldown(AdaptiveCoolingConfig::default()), Duration::from_secs(300));
}

#[test]
fn full_critical_queue_suppresses_at_once() {
    let mut state = new_topic();
    let peer = test_peer_id(7);
    state.eager_peers.insert(peer);
    let config = AdaptiveCoolingConfig::default();
    let outcome =
        state.record_critical_gate_overflow_with_context_at(normal_send_attempt(peer), start(), None, config);
    let event = outcome.suppression.expect("suppressed");
    assert_eq!(event.recent_timeout_count, 64);
    assert_eq!(event.cooldown, Duration::from_secs(30));
    assert!(event.demoted);
    assert!(state.is_peer_suppressed_at(peer, start()));
    let score = state.peer_scores.get(&peer).expect("scored");
    assert_eq!(score.outbound_send_timeouts.events, 1);
    assert_eq!(score.cooling_events.events, 1);
    // A second overflow of a suppressed peer is only counted.
    let again =
        state.record_critical_gate_overflow_with_context_at(normal_send_attempt(peer), start(), None, config);
    assert!(again.suppression.is_none());
    assert_eq!(state.peer_scores.get(&peer).expect("scored").outbound_send_timeouts.events, 2);
}
