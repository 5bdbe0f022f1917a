use saorsa_gossip_pubsub::config::PER_PEER_REPUBLISH_TIMEOUT_MS;
use saorsa_gossip_pubsub::ids::PeerId;
use saorsa_gossip_pubsub::routing::send_budget;
use saorsa_gossip_pubsub::time::Duration;
use saorsa_gossip_pubsub::timing::{
    AdaptiveCoolingConfig, PerPeerRttTracker, ADAPTIVE_COOLDOWN_INITIAL_SECS, PER_PEER_RTT_SAMPLE_CAP,
    PER_PEER_TIMEOUT_CEILING_MS, PER_PEER_TIMEOUT_FLOOR_MS,
};

fn p(seed: u8) -> PeerId {
    let mut b = [0u8; 32];
    b[0] = seed;
    PeerId::new(b)
}

/// What 0.97 per second leaves of the part above the first cooldown.
fn left_above(cfg: &AdaptiveCoolingConfig, current: Duration, elapsed: Duration) -> Duration {
    let above = current.saturating_minus(cfg.initial);
    let secs = elapsed.nanos as f64 / 1e9;
    Duration { nanos: (above.nanos as f64 * 0.97_f64.powf(secs)).round() as u128 }
}

fn decay(cfg: &AdaptiveCoolingConfig, current: Duration, elapsed: Duration) -> Duration {
    cfg.decay_on_success(current, elapsed, left_above(cfg, current, elapsed))
}

#[test]
fn per_peer_republish_timeout_accommodates_wan_tail_latency() {
    let per_peer_republish_timeout = Duration::from_millis(PER_PEER_REPUBLISH_TIMEOUT_MS);
    assert!(
        per_peer_republish_timeout >= Duration::from_millis(1_500),
        "the send budget must accommodate WAN-class tail latency; current is {:?}",
        per_peer_republish_timeout
    );
}

#[test]
fn rtt_tracker_p95_window_evicts_oldest_first() {
    let mut t = PerPeerRttTracker::new();
    t.record(p(12), Duration::from_millis(1_000)); // outlier
    for _ in 0..PER_PEER_RTT_SAMPLE_CAP {
        t.record(p(12), Duration::from_millis(50));
    }
    let p95 = f64::from(t.p95_ms(&p(12)).expect("recorded"));
    assert!(p95 < 200.0, "old outlier evicted by ring window (got {p95})");
}

#[test]
fn rtt_tracker_sample_count_caps_at_limit() {
    let mut t = PerPeerRttTracker::new();
    for _ in 0..(PER_PEER_RTT_SAMPLE_CAP + 10) {
        t.record(p(3), Duration::from_millis(100));
    }
    assert_eq!(t.sample_count(&p(3)), PER_PEER_RTT_SAMPLE_CAP as u32);
}

/// The moving average of the same samples: a fifth of the new one, four fifths of what was.
fn moving_average(samples: &[f64]) -> f64 {
    let mut mean = samples[0];
    for sample in &samples[1..] {
        mean = 0.20 * sample + 0.80 * mean;
    }
    mean
}

#[test]
fn rtt_tracker_records_first_sample_directly() {
    let mut t = PerPeerRttTracker::new();
    t.record(p(1), Duration::from_millis(200));
    let p95 = f64::from(t.p95_ms(&p(1)).expect("recorded"));
    assert!((p95 - 200.0).abs() < 0.01, "single-sample p95 equals the sample (got {p95})");
    assert_eq!(t.sample_count(&p(1)), 1);
}

#[test]
fn rtt_tracker_p95_picks_top_5_percent_value() {
    let mut t = PerPeerRttTracker::new();
    let mut samples = vec![100.0; 30];
    for _ in 0..30 {
        t.record(p(11), Duration::from_millis(100));
    }
    t.record(p(11), Duration::from_millis(1_000));
    t.record(p(11), Duration::from_millis(1_000));
    samples.extend([1_000.0, 1_000.0]);
    let p95 = f64::from(t.p95_ms(&p(11)).expect("recorded"));
    assert!((p95 - 1_000.0).abs() < 0.01, "tail sample drives p95 (got {p95})");
    let mean = moving_average(&samples);
    assert!(mean < p95, "the mean stays below p95 when the tail is sparse (mean={mean}, p95={p95})");
    // Of 21 samples a single outlier lies above the ninety-fifth percentile.
    for _ in 0..20 {
        t.record(p(13), Duration::from_millis(100));
    }
    t.record(p(13), Duration::from_millis(1_000));
    assert_eq!(t.p95_ms(&p(13)), Some(100));
}

#[test]
fn rtt_tracker_unknown_peer_returns_none_and_zero() {
    let t = PerPeerRttTracker::new();
    assert!(t.p95_ms(&p(123)).is_none());
    assert_eq!(t.sample_count(&p(123)), 0);
}

#[test]
fn samples_are_held_at_the_largest_number() {
    let mut t = PerPeerRttTracker::new();
    t.record(p(1), Duration::from_secs(u64::MAX));
    assert_eq!(t.p95_ms(&p(1)), Some(u32::MAX));
}

#[test]
fn adaptive_timeout_returns_legacy_floor_when_no_samples() {
    let t = PerPeerRttTracker::new();
    let legacy = Duration::from_millis(2_500);
    assert_eq!(t.adaptive_timeout(&p(99), legacy), legacy);
}

#[test]
fn adaptive_timeout_caps_oversize_legacy_floor_at_ceiling() {
    let t = PerPeerRttTracker::new();
    let oversized = Duration::from_secs(30);
    assert_eq!(
        t.adaptive_timeout(&p(98), oversized),
        Duration::from_millis(PER_PEER_TIMEOUT_CEILING_MS),
        "ceiling clamps legacy_floor at cold start"
    );
}

#[test]
fn adaptive_timeout_scales_by_multiplier_from_p95() {
    let mut t = PerPeerRttTracker::new();
    for _ in 0..30 {
        t.record(p(4), Duration::from_millis(100));
    }
    t.record(p(4), Duration::from_millis(800));
    t.record(p(4), Duration::from_millis(800));
    let adaptive = t.adaptive_timeout(&p(4), Duration::from_millis(2_500));
    assert_eq!(adaptive, Duration::from_millis(2_000));
}

#[test]
fn adaptive_timeout_floors_at_per_peer_minimum() {
    let mut t = PerPeerRttTracker::new();
    t.record(p(5), Duration::from_millis(50));
    let adaptive = t.adaptive_timeout(&p(5), Duration::from_millis(2_500));
    assert_eq!(adaptive, Duration::from_millis(PER_PEER_TIMEOUT_FLOOR_MS));
}

#[test]
fn adaptive_timeout_ceilings_at_per_peer_maximum() {
    let mut t = PerPeerRttTracker::new();
    t.record(p(6), Duration::from_millis(5_000));
    let adaptive = t.adaptive_timeout(&p(6), Duration::from_millis(2_500));
    assert_eq!(adaptive, Duration::from_millis(PER_PEER_TIMEOUT_CEILING_MS));
}

#[test]
fn odd_percentiles_are_scaled_and_rounded_down() {
    let mut t = PerPeerRttTracker::new();
    t.record(p(7), Duration::from_millis(801));
    assert_eq!(t.adaptive_timeout(&p(7), Duration::zero()), Duration::from_millis(2_002));
    assert_eq!(send_budget(&t, &p(7)), Duration::from_millis(2_002));
    assert_eq!(send_budget(&t, &p(8)), Duration::from_millis(4_000));
}

#[test]
fn adaptive_cooldown_first_returns_initial() {
    let cfg = AdaptiveCoolingConfig::default();
    assert_eq!(
        cfg.next_cooldown(Duration::zero()),
        Duration::from_secs(ADAPTIVE_COOLDOWN_INITIAL_SECS)
    );
}

#[test]
fn adaptive_cooldown_escalates_on_consecutive_cool() {
    let cfg = AdaptiveCoolingConfig::default();
    let first = cfg.next_cooldown(Duration::zero());
    let second = cfg.next_cooldown(first);
    assert_eq!(second, first.checked_mul(2).unwrap());
}

#[test]
fn adaptive_cooldown_caps_at_max() {
    let cfg = AdaptiveCoolingConfig::default()
        .with_initial(Duration::from_secs(60))
        .with_max(Duration::from_secs(120));
    let first = cfg.next_cooldown(Duration::zero()); // 60s
    let second = cfg.next_cooldown(first); // 120s
    let third = cfg.next_cooldown(second); // would be 240s, capped to 120s
    assert_eq!(third, Duration::from_secs(120));
}

#[test]
fn adaptive_cooldown_handles_arithmetic_overflow_gracefully() {
    let cfg = AdaptiveCoolingConfig::default();
    let mut cd = cfg.next_cooldown(Duration::zero());
    for _ in 0..1_000 {
        cd = cfg.next_cooldown(cd);
    }
    assert_eq!(cd, cfg.max, "no overflow after extreme escalation");
}

#[test]
fn adaptive_cooldown_zero_escalation_factor_clamps_to_one() {
    let cfg = AdaptiveCoolingConfig::default().with_escalation_factor(0);
    let first = cfg.next_cooldown(Duration::zero()); // initial
    let second = cfg.next_cooldown(first); // factor=1 → unchanged
    assert_eq!(second, first, "clamp prevents zero-cooldown collapse");
    assert_eq!(cfg.escalation_factor(), 1);
}

#[test]
fn adaptive_cooldown_decay_returns_initial_when_already_at_floor() {
    let cfg = AdaptiveCoolingConfig::default();
    let decayed = decay(&cfg, cfg.initial, Duration::from_secs(60));
    assert_eq!(decayed, cfg.initial);
}

#[test]
fn adaptive_cooldown_decay_reduces_proportionally() {
    let cfg = AdaptiveCoolingConfig::default();
    let decayed = decay(&cfg, Duration::from_secs(120), Duration::from_secs(10));
    let secs = decayed.nanos as f64 / 1e9;
    assert!(
        (secs - 96.3).abs() < 1.0,
        "decay tracks 0.97^elapsed (got {secs}s)"
    );
}

#[test]
fn adaptive_cooldown_decay_returns_initial_after_long_elapsed() {
    let cfg = AdaptiveCoolingConfig::default();
    let decayed = decay(&cfg, cfg.max, Duration::from_secs(1_000));
    assert_eq!(decayed, cfg.initial, "long elapsed decays to floor");
}

#[test]
fn adaptive_cooldown_decay_never_below_initial() {
    let cfg = AdaptiveCoolingConfig::default();
    for elapsed in [0u64, 1, 60, 600, 3_600] {
        let decayed = decay(&cfg, cfg.initial, Duration::from_secs(elapsed));
        assert!(decayed >= cfg.initial, "decay clamp at elapsed={elapsed}");
    }
}

#[test]
fn adaptive_cooldown_dead_escalation_doubles_current() {
    let cfg = AdaptiveCoolingConfig::default();
    let dead = cfg.escalate_on_dead(Duration::from_secs(60));
    assert_eq!(dead, Duration::from_secs(120));
}

#[test]
fn adaptive_cooldown_dead_escalation_from_zero_uses_initial() {
    let cfg = AdaptiveCoolingConfig::default();
    let dead = cfg.escalate_on_dead(Duration::zero());
    assert_eq!(dead, cfg.initial.checked_mul(2).unwrap());
}

#[test]
fn adaptive_cooldown_dead_escalation_caps_at_max() {
    let cfg = AdaptiveCoolingConfig::default();
    let dead = cfg.escalate_on_dead(cfg.max);
    assert_eq!(dead, cfg.max, "dead escalation honours cap");
}

#[test]
fn cooldown_bounds_hold_for_odd_configurations() {
    // A longest cooldown below the first one: the first cooldown is cut, but a decay does not go
    // below the first.
    let cfg = AdaptiveCoolingConfig::default()
        .with_initial(Duration::from_secs(60))
        .with_max(Duration::from_secs(10));
    assert_eq!(cfg.next_cooldown(Duration::zero()), Duration::from_secs(10));
    assert_eq!(
        cfg.decay_on_success(Duration::from_secs(100), Duration::from_secs(1), Duration::from_secs(39)),
        Duration::from_secs(60)
    );
    let huge = Duration { nanos: u128::MAX };
    assert_eq!(cfg.next_cooldown(huge), Duration::from_secs(10));
    assert_eq!(cfg.escalate_on_dead(huge), Duration::from_secs(10));
    // No time has passed: nothing decays.
    assert_eq!(
        cfg.decay_on_success(Duration::from_secs(100), Duration::zero(), Duration::zero()),
        Duration::from_secs(100)
    );
}

#[test]
fn later_successes_leave_shorter_cooldowns() {
    let cfg = AdaptiveCoolingConfig::default();
    let current = Duration::from_secs(200);
    let mut last = decay(&cfg, current, Duration::zero());
    assert_eq!(last, current);
    for secs in 1..300 {
        let next = decay(&cfg, current, Duration::from_secs(secs));
        assert!(cfg.initial <= next && next <= last);
        last = next;
    }
}
