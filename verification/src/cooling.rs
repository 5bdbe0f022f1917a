//! Cooling: how a peer that keeps timing out is suppressed, probed and let back in.

use vstd::prelude::*;

use crate::config::{
    secs, PEER_COOLDOWN_BYPASS_MIN_INTERVAL_SECS, PEER_SUPPRESSION_BACKOFF_MAX_SECS,
    PEER_SUPPRESSION_COOLDOWN_SECS, PEER_TIMEOUT_THRESHOLD, PEER_TIMEOUT_WINDOW_SECS,
};
use crate::ids::PeerId;
use crate::time::{elapsed_between, Duration, Instant};
use crate::timing::{scaled_span, AdaptiveCoolingConfig};

verus! {

/// What the membership layer says of a peer.
#[derive(Clone, Copy, Debug, PartialEq, Eq, Structural)]
pub enum PeerHealth {
    Alive,
    Suspect,
    Dead,
}

/// Why a send to a peer was admitted.
#[derive(Clone, Copy, Debug, PartialEq, Eq, Structural)]
pub enum SendAttemptKind {
    Normal,
    /// The one send after a cooldown whose outcome decides over the peer.
    RecoveryProbe,
    /// One of the rare sends during a cooldown.
    CooldownBypass,
}

/// An admitted send.
#[derive(Clone, Copy, Debug, PartialEq, Eq)]
pub struct PeerSendAttempt {
    pub peer: PeerId,
    pub kind: SendAttemptKind,
    /// Tells a recovery probe from every other one.
    pub recovery_probe_id: Option<u64>,
}

/// A recovery probe has started.
#[derive(Clone, Copy, Debug, PartialEq, Eq, Structural)]
pub struct PeerRecoveryProbeEvent {
    pub suppressed_until: Instant,
    pub recent_timeout_count: usize,
    pub cooldown: Duration,
}

/// A peer was suppressed.
#[derive(Clone, Copy, Debug, PartialEq, Eq, Structural)]
pub struct PeerSuppressionEvent {
    pub suppressed_until: Instant,
    pub recent_timeout_count: usize,
    pub cooldown: Duration,
    /// Whether the peer was eager before.
    pub demoted: bool,
}

/// What a timed-out send led to.
#[derive(Clone, Copy, Debug, PartialEq, Eq, Structural)]
pub struct PeerTimeoutOutcome {
    pub suppression: Option<PeerSuppressionEvent>,
    /// Whether the membership layer should look at the peer.
    pub request_indirect_probe: bool,
}

/// Hands out the identifiers of recovery probes.
#[derive(Clone, Copy, Debug, PartialEq, Eq, Structural)]
pub struct ProbeIds {
    pub next: u64,
}

impl ProbeIds {
    pub fn new() -> (r: Self)
        ensures
            r.next == 1,
    {
        ProbeIds { next: 1 }
    }

    /// The identifiers after one was taken; they start over after the largest.
    pub open spec fn advanced(self) -> Self {
        ProbeIds { next: if self.next == u64::MAX { 0 } else { (self.next + 1) as u64 } }
    }

    fn take(&mut self) -> (r: u64)
        ensures
            r == old(self).next,
            *final(self) == old(self).advanced(),
    {
        let id: u64 = self.next;
        self.next = self.next.wrapping_add(1);
        id
    }
}

/// The timeouts and the suppression of one peer.
#[derive(Clone, Copy, Debug, PartialEq, Eq, Structural)]
pub struct PeerCoolingState {
    pub timeout_window_started: Instant,
    pub timeout_count: usize,
    pub suppressed_until: Option<Instant>,
    /// The latest cooldown, kept after it has ended.
    pub cooldown: Duration,
    pub last_suppressed_at: Option<Instant>,
    pub last_suppression_timeout_count: usize,
    pub recovery_probe_in_flight: bool,
    pub recovery_probe_id: Option<u64>,
    pub last_bypass_probe_at: Option<Instant>,
}

/// What one more timeout of a peer led to.
#[derive(Clone, Copy, Debug, PartialEq, Eq, Structural)]
pub enum TimeoutStep {
    /// The peer was suppressed already.
    Ignored,
    /// The timeout was counted.
    Counted,
    /// The peer is suspect: the membership layer decides first.
    HeldForProbe,
    /// The peer is suppressed from now on.
    Suppressed { cooldown: Duration, recent_timeout_count: usize },
}

/// What a claim on a send to a peer gave.
#[derive(Clone, Copy, Debug, PartialEq, Eq, Structural)]
pub struct SendClaim {
    pub kind: SendAttemptKind,
    pub recovery_probe_id: Option<u64>,
    pub event: Option<PeerRecoveryProbeEvent>,
}

/// Whether a suppression that starts now ends at a point that the clock can show.
pub open spec fn can_suppress(now: Instant, config: Option<AdaptiveCoolingConfig>) -> bool {
    match config {
        Some(c) => now.can_advance(c.max),
        None => now.can_advance(secs(PEER_SUPPRESSION_BACKOFF_MAX_SECS)),
    }
}

impl PeerCoolingState {
    /// The state of a peer of which no timeout has been counted.
    pub open spec fn fresh(now: Instant) -> Self {
        PeerCoolingState {
            timeout_window_started: now,
            timeout_count: 0,
            suppressed_until: None,
            cooldown: Duration { nanos: 0 },
            last_suppressed_at: None,
            last_suppression_timeout_count: 0,
            recovery_probe_in_flight: false,
            recovery_probe_id: None,
            last_bypass_probe_at: None,
        }
    }

    /// A probe is in flight only while the peer is suppressed, and then it is named.
    pub open spec fn coherent(self) -> bool {
        &&& self.recovery_probe_in_flight ==> self.suppressed_until is Some
        &&& self.recovery_probe_in_flight == (self.recovery_probe_id is Some)
    }

    /// The cooldown still runs.
    pub open spec fn cooling(self, now: Instant) -> bool {
        self.suppressed_until is Some && self.suppressed_until->0.nanos > now.nanos
    }

    /// The cooldown has run out, and no probe has cleared it yet.
    pub open spec fn expired(self, now: Instant) -> bool {
        self.suppressed_until is Some && self.suppressed_until->0.nanos <= now.nanos
    }

    /// The peer takes no part in the mesh.
    pub open spec fn suppressed(self, now: Instant) -> bool {
        self.suppressed_until is Some || self.recovery_probe_in_flight
    }

    /// The least time since the last send during a cooldown has passed.
    pub open spec fn bypass_ready(self, now: Instant) -> bool {
        match self.last_bypass_probe_at {
            None => true,
            Some(at) => elapsed_between(now, at) >= secs(PEER_COOLDOWN_BYPASS_MIN_INTERVAL_SECS).nanos,
        }
    }

    /// What a claim on a send gives.
    pub open spec fn claim(self, now: Instant, ids: ProbeIds) -> Option<SendClaim> {
        if self.cooling(now) {
            if self.recovery_probe_in_flight || !self.bypass_ready(now) {
                None
            } else {
                Some(SendClaim { kind: SendAttemptKind::CooldownBypass, recovery_probe_id: None, event: None })
            }
        } else if self.expired(now) {
            if self.recovery_probe_in_flight {
                None
            } else {
                Some(
                    SendClaim {
                        kind: SendAttemptKind::RecoveryProbe,
                        recovery_probe_id: Some(ids.next),
                        event: Some(
                            PeerRecoveryProbeEvent {
                                suppressed_until: self.suppressed_until->0,
                                recent_timeout_count: if self.last_suppression_timeout_count >= 1 {
                                    self.last_suppression_timeout_count
                                } else {
                                    1
                                },
                                cooldown: self.cooldown,
                            },
                        ),
                    },
                )
            }
        } else {
            Some(SendClaim { kind: SendAttemptKind::Normal, recovery_probe_id: None, event: None })
        }
    }

    /// The state after a claim that gave `claim`.
    pub open spec fn claimed(self, now: Instant, claim: Option<SendClaim>) -> Self {
        match claim {
            None => self,
            Some(c) => match c.kind {
                SendAttemptKind::Normal => self,
                SendAttemptKind::CooldownBypass => PeerCoolingState { last_bypass_probe_at: Some(now), ..self },
                SendAttemptKind::RecoveryProbe => PeerCoolingState {
                    recovery_probe_in_flight: true,
                    recovery_probe_id: c.recovery_probe_id,
                    ..self
                },
            },
        }
    }

    /// Whether this is the probe in flight.
    pub open spec fn owns_probe(self, recovery_probe_id: Option<u64>) -> bool {
        self.recovery_probe_in_flight && self.recovery_probe_id == recovery_probe_id
    }

    /// The state after a suppression that starts now.
    pub open spec fn suppressed_from(self, now: Instant, cooldown: Duration, recent_timeout_count: usize) -> Self {
        PeerCoolingState {
            timeout_window_started: now,
            timeout_count: 0,
            suppressed_until: Some(Instant { nanos: (now.nanos + cooldown.nanos) as u128 }),
            cooldown,
            last_suppressed_at: Some(now),
            last_suppression_timeout_count: recent_timeout_count,
            recovery_probe_in_flight: false,
            recovery_probe_id: None,
            last_bypass_probe_at: self.last_bypass_probe_at,
        }
    }

    /// The cooldown that doubles from one suppression to the next while the peer is not cleared.
    pub open spec fn legacy_cooldown(self) -> Duration {
        if self.suppressed_until is None || self.cooldown.nanos == 0 {
            secs(PEER_SUPPRESSION_COOLDOWN_SECS)
        } else {
            scaled_span(self.cooldown, 2, secs(PEER_SUPPRESSION_BACKOFF_MAX_SECS))
        }
    }

    /// The next cooldown.
    pub open spec fn cooldown_after(self, config: Option<AdaptiveCoolingConfig>) -> Duration {
        match config {
            None => self.legacy_cooldown(),
            Some(c) => c.next(self.cooldown),
        }
    }

    /// The next cooldown of a peer that is reported dead.
    pub open spec fn cooldown_when_dead(self, config: Option<AdaptiveCoolingConfig>) -> Duration {
        match config {
            None => self.legacy_cooldown(),
            Some(c) => c.on_dead(self.cooldown),
        }
    }

    /// The state with one more timeout counted, in a new window where the last one is over.
    pub open spec fn counted(self, now: Instant) -> Self {
        if elapsed_between(now, self.timeout_window_started) > secs(PEER_TIMEOUT_WINDOW_SECS).nanos {
            PeerCoolingState { timeout_window_started: now, timeout_count: 1, ..self }
        } else {
            PeerCoolingState {
                timeout_count: if self.timeout_count < usize::MAX { (self.timeout_count + 1) as usize } else { usize::MAX },
                ..self
            }
        }
    }

    /// What a timeout leads to.
    pub open spec fn timeout_step(
        self,
        now: Instant,
        config: Option<AdaptiveCoolingConfig>,
        health: Option<PeerHealth>,
    ) -> TimeoutStep {
        let next = self.counted(now);
        if self.suppressed(now) {
            TimeoutStep::Ignored
        } else if health == Some(PeerHealth::Dead) {
            TimeoutStep::Suppressed {
                cooldown: next.cooldown_when_dead(config),
                recent_timeout_count: next.timeout_count,
            }
        } else if next.timeout_count < PEER_TIMEOUT_THRESHOLD {
            TimeoutStep::Counted
        } else if health == Some(PeerHealth::Suspect) {
            TimeoutStep::HeldForProbe
        } else {
            TimeoutStep::Suppressed { cooldown: next.cooldown_after(config), recent_timeout_count: next.timeout_count }
        }
    }

    /// The state after a timeout that led to `step`.
    pub open spec fn timed_out(self, now: Instant, step: TimeoutStep) -> Self {
        match step {
            TimeoutStep::Ignored => self,
            TimeoutStep::Counted => self.counted(now),
            TimeoutStep::HeldForProbe => PeerCoolingState {
                timeout_count: (PEER_TIMEOUT_THRESHOLD - 1) as usize,
                timeout_window_started: now,
                ..self
            },
            TimeoutStep::Suppressed { cooldown, recent_timeout_count } => self.suppressed_from(
                now,
                cooldown,
                recent_timeout_count,
            ),
        }
    }

    /// The state after a successful probe.
    pub open spec fn cleared(self, now: Instant, cooldown: Duration) -> Self {
        PeerCoolingState {
            suppressed_until: None,
            cooldown,
            timeout_count: 0,
            timeout_window_started: now,
            last_suppression_timeout_count: 0,
            recovery_probe_in_flight: false,
            recovery_probe_id: None,
            ..self
        }
    }

    /// The cooldown that a success leaves.
    pub open spec fn decayed_cooldown(self, now: Instant, config: AdaptiveCoolingConfig, decayed_above: Duration) -> Duration {
        match self.last_suppressed_at {
            None => self.cooldown,
            Some(at) => config.decayed(
                self.cooldown,
                Duration { nanos: elapsed_between(now, at) as u128 },
                decayed_above,
            ),
        }
    }

    pub fn new(now: Instant) -> (r: Self)
        ensures
            r == Self::fresh(now),
    {
        PeerCoolingState {
            timeout_window_started: now,
            timeout_count: 0,
            suppressed_until: None,
            cooldown: Duration::zero(),
            last_suppressed_at: None,
            last_suppression_timeout_count: 0,
            recovery_probe_in_flight: false,
            recovery_probe_id: None,
            last_bypass_probe_at: None,
        }
    }

    fn is_cooling_at(&self, now: Instant) -> (r: bool)
        ensures
            r == self.cooling(now),
    {
        match self.suppressed_until {
            Some(until) => until.nanos > now.nanos,
            None => false,
        }
    }

    pub fn suppression_expired_at(&self, now: Instant) -> (r: bool)
        ensures
            r == self.expired(now),
    {
        match self.suppressed_until {
            Some(until) => until.nanos <= now.nanos,
            None => false,
        }
    }

    pub fn is_suppressed_at(&self, now: Instant) -> (r: bool)
        ensures
            r == self.suppressed(now),
    {
        self.is_cooling_at(now) || self.recovery_probe_in_flight || self.suppression_expired_at(now)
    }

    pub fn can_graft_at(&self, now: Instant) -> (r: bool)
        ensures
            r == !self.suppressed(now),
    {
        !self.is_suppressed_at(now)
    }

    /// Asks for a send. A peer that is not suppressed gets it. During a cooldown one send per
    /// interval passes; after it one recovery probe does, and nothing else while that is in flight.
    pub fn claim_send_attempt_at(&mut self, now: Instant, ids: &mut ProbeIds) -> (r: Option<SendClaim>)
        ensures
            r == old(self).claim(now, *old(ids)),
            *final(self) == old(self).claimed(now, r),
            *final(ids) == (if r is Some && r->0.kind == SendAttemptKind::RecoveryProbe {
                old(ids).advanced()
            } else {
                *old(ids)
            }),
    {
        if self.is_cooling_at(now) {
            if self.recovery_probe_in_flight {
                return None;
            }
            let ready = match self.last_bypass_probe_at {
                None => true,
                Some(at) => now.saturating_duration_since(at).nanos >= Duration::from_secs(
                    PEER_COOLDOWN_BYPASS_MIN_INTERVAL_SECS,
                ).nanos,
            };
            if !ready {
                return None;
            }
            self.last_bypass_probe_at = Some(now);
            return Some(SendClaim { kind: SendAttemptKind::CooldownBypass, recovery_probe_id: None, event: None });
        }
        match self.suppressed_until {
            Some(suppressed_until) => {
                if self.recovery_probe_in_flight {
                    return None;
                }
                let id: u64 = ids.take();
                self.recovery_probe_in_flight = true;
                self.recovery_probe_id = Some(id);
                let recent_timeout_count: usize = if self.last_suppression_timeout_count >= 1 {
                    self.last_suppression_timeout_count
                } else {
                    1
                };
                Some(
                    SendClaim {
                        kind: SendAttemptKind::RecoveryProbe,
                        recovery_probe_id: Some(id),
                        event: Some(
                            PeerRecoveryProbeEvent {
                                suppressed_until,
                                recent_timeout_count,
                                cooldown: self.cooldown,
                            },
                        ),
                    },
                )
            },
            None => Some(SendClaim { kind: SendAttemptKind::Normal, recovery_probe_id: None, event: None }),
        }
    }

    pub fn matches_recovery_probe(&self, recovery_probe_id: Option<u64>) -> (r: bool)
        ensures
            r == self.owns_probe(recovery_probe_id),
    {
        let same = match (self.recovery_probe_id, recovery_probe_id) {
            (Some(a), Some(b)) => a == b,
            (None, None) => true,
            _ => false,
        };
        self.recovery_probe_in_flight && same
    }

    pub fn next_legacy_cooldown(&self) -> (r: Duration)
        ensures
            r == self.legacy_cooldown(),
            r.nanos <= secs(PEER_SUPPRESSION_BACKOFF_MAX_SECS).nanos,
    {
        let first = Duration::from_secs(PEER_SUPPRESSION_COOLDOWN_SECS);
        let max = Duration::from_secs(PEER_SUPPRESSION_BACKOFF_MAX_SECS);
        if self.suppressed_until.is_none() || self.cooldown.is_zero() {
            return first;
        }
        match self.cooldown.checked_mul(2) {
            Some(span) => span.at_most(max),
            None => max,
        }
    }

    pub fn next_adaptive_cooldown(&self, cooling_config: AdaptiveCoolingConfig) -> (r: Duration)
        ensures
            r == cooling_config.next(self.cooldown),
    {
        cooling_config.next_cooldown(self.cooldown)
    }

    pub fn dead_cooldown(&self, cooling_config: AdaptiveCoolingConfig) -> (r: Duration)
        ensures
            r == cooling_config.on_dead(self.cooldown),
    {
        cooling_config.escalate_on_dead(self.cooldown)
    }

    /// Suppresses the peer from now on.
    pub(crate) fn suppress(&mut self, now: Instant, cooldown: Duration, recent_timeout_count: usize)
        requires
            now.can_advance(cooldown),
        ensures
            *final(self) == old(self).suppressed_from(now, cooldown, recent_timeout_count),
    {
        self.cooldown = cooldown;
        self.suppressed_until = Some(now.plus(cooldown));
        self.last_suppressed_at = Some(now);
        self.last_suppression_timeout_count = recent_timeout_count;
        self.recovery_probe_in_flight = false;
        self.recovery_probe_id = None;
        self.timeout_window_started = now;
        self.timeout_count = 0;
    }

    /// The cooldown of the next suppression, with or without an adaptive configuration.
    pub(crate) fn escalated(&self, config: Option<AdaptiveCoolingConfig>) -> (r: Duration)
        ensures
            r == self.cooldown_after(config),
    {
        match config {
            None => self.next_legacy_cooldown(),
            Some(c) => self.next_adaptive_cooldown(c),
        }
    }

    /// Counts a timed-out send of a peer. A suppressed peer is left alone. A dead peer is
    /// suppressed at once, any other at the threshold within one window, but a suspect one is
    /// left to the membership layer first.
    pub fn record_timeout_at(
        &mut self,
        now: Instant,
        config: Option<AdaptiveCoolingConfig>,
        health: Option<PeerHealth>,
    ) -> (r: TimeoutStep)
        requires
            can_suppress(now, config),
        ensures
            r == old(self).timeout_step(now, config, health),
            *final(self) == old(self).timed_out(now, r),
    {
        if self.is_suppressed_at(now) {
            return TimeoutStep::Ignored;
        }
        if now.saturating_duration_since(self.timeout_window_started).nanos > Duration::from_secs(
            PEER_TIMEOUT_WINDOW_SECS,
        ).nanos {
            self.timeout_window_started = now;
            self.timeout_count = 0;
        }
        self.timeout_count = self.timeout_count.saturating_add(1);
        let recent_timeout_count: usize = self.timeout_count;
        let dead = match health {
            Some(PeerHealth::Dead) => true,
            _ => false,
        };
        let suspect = match health {
            Some(PeerHealth::Suspect) => true,
            _ => false,
        };
        if dead {
            let cooldown = match config {
                None => self.next_legacy_cooldown(),
                Some(c) => self.dead_cooldown(c),
            };
            self.suppress(now, cooldown, recent_timeout_count);
            TimeoutStep::Suppressed { cooldown, recent_timeout_count }
        } else if recent_timeout_count < PEER_TIMEOUT_THRESHOLD {
            TimeoutStep::Counted
        } else if suspect {
            self.timeout_count = PEER_TIMEOUT_THRESHOLD - 1;
            self.timeout_window_started = now;
            TimeoutStep::HeldForProbe
        } else {
            let cooldown = self.escalated(config);
            self.suppress(now, cooldown, recent_timeout_count);
            TimeoutStep::Suppressed { cooldown, recent_timeout_count }
        }
    }

    /// Lets the cooldown memory decay after a success.
    pub(crate) fn decay(&mut self, now: Instant, config: AdaptiveCoolingConfig, decayed_above: Duration)
        ensures
            *final(self) == (PeerCoolingState {
                cooldown: old(self).decayed_cooldown(now, config, decayed_above),
                ..*old(self)
            }),
    {
        if let Some(at) = self.last_suppressed_at {
            let elapsed = now.saturating_duration_since(at);
            self.cooldown = config.decay_on_success(self.cooldown, elapsed, decayed_above);
        }
    }

    /// Lets a peer back in.
    pub(crate) fn clear(&mut self, now: Instant)
        ensures
            *final(self) == old(self).cleared(now, old(self).cooldown),
    {
        self.suppressed_until = None;
        self.timeout_count = 0;
        self.timeout_window_started = now;
        self.last_suppression_timeout_count = 0;
        self.recovery_probe_in_flight = false;
        self.recovery_probe_id = None;
    }
}

/// During a cooldown no two sends pass within the least interval.
pub proof fn bypass_is_rate_limited(state: PeerCoolingState, now: Instant, later: Instant, ids: ProbeIds)
    requires
        state.claim(now, ids) is Some,
        state.claim(now, ids)->0.kind == SendAttemptKind::CooldownBypass,
        elapsed_between(later, now) < secs(PEER_COOLDOWN_BYPASS_MIN_INTERVAL_SECS).nanos,
        state.cooling(later),
    ensures
        state.claimed(now, state.claim(now, ids)).claim(later, ids) is None,
{
}

/// While a recovery probe is in flight nothing else is sent to the peer, and only the owner of the
/// probe can settle it.
pub proof fn one_recovery_probe_at_a_time(state: PeerCoolingState, now: Instant, later: Instant, ids: ProbeIds, id: u64)
    requires
        state.claim(now, ids) is Some,
        state.claim(now, ids)->0.kind == SendAttemptKind::RecoveryProbe,
    ensures
        state.claimed(now, state.claim(now, ids)).claim(later, ids.advanced()) is None,
        state.claimed(now, state.claim(now, ids)).owns_probe(Some(id)) <==> id == ids.next,
{
}

/// Sending to a suppressed peer does not by itself let it back in.
pub proof fn claims_keep_the_suppression(state: PeerCoolingState, now: Instant, later: Instant, ids: ProbeIds)
    ensures
        state.claimed(now, state.claim(now, ids)).suppressed_until == state.suppressed_until,
        state.suppressed(later) ==> state.claimed(now, state.claim(now, ids)).suppressed(later),
{
}

/// A peer leaves its cooldown only by the clock and then a probe: once suppressed it stays so at
/// every later time.
pub proof fn suppression_does_not_lapse(state: PeerCoolingState, now: Instant, later: Instant)
    ensures
        state.suppressed(now) == state.suppressed(later),
        state.suppressed(now) == (state.cooling(now) || state.recovery_probe_in_flight || state.expired(now)),
{
}

/// A suppression lasts no longer than the longest cooldown.
pub proof fn suppression_is_bounded(
    state: PeerCoolingState,
    now: Instant,
    config: AdaptiveCoolingConfig,
    health: Option<PeerHealth>,
)
    requires
        now.can_advance(config.max),
    ensures
        match state.timeout_step(now, Some(config), health) {
            TimeoutStep::Suppressed { cooldown, .. } => cooldown.nanos <= config.max.nanos,
            _ => true,
        },
{
}

/// Whatever happens to a peer, a probe is in flight only while the peer is suppressed.
pub proof fn coherence_is_kept(
    state: PeerCoolingState,
    now: Instant,
    ids: ProbeIds,
    config: Option<AdaptiveCoolingConfig>,
    health: Option<PeerHealth>,
    cooldown: Duration,
)
    requires
        state.coherent(),
    ensures
        PeerCoolingState::fresh(now).coherent(),
        state.claimed(now, state.claim(now, ids)).coherent(),
        state.timed_out(now, state.timeout_step(now, config, health)).coherent(),
        state.cleared(now, cooldown).coherent(),
        (PeerCoolingState { cooldown, ..state }).coherent(),
{
}

/// A peer's state after some timeouts, one after the other.
pub open spec fn after_timeouts(
    state: PeerCoolingState,
    times: Seq<Instant>,
    config: Option<AdaptiveCoolingConfig>,
    health: Option<PeerHealth>,
) -> PeerCoolingState
    decreases times.len(),
{
    if times.len() == 0 {
        state
    } else {
        let before = after_timeouts(state, times.drop_last(), config, health);
        before.timed_out(times.last(), before.timeout_step(times.last(), config, health))
    }
}

/// Fewer timeouts than the threshold do not suppress a peer that is not reported dead.
pub proof fn few_timeouts_do_not_suppress(
    start: Instant,
    times: Seq<Instant>,
    config: Option<AdaptiveCoolingConfig>,
    health: Option<PeerHealth>,
)
    requires
        health != Some(PeerHealth::Dead),
        times.len() < PEER_TIMEOUT_THRESHOLD,
        forall|i: int|
            0 <= i < times.len() ==> elapsed_between(#[trigger] times[i], start) <= secs(PEER_TIMEOUT_WINDOW_SECS).nanos,
    ensures
        after_timeouts(PeerCoolingState::fresh(start), times, config, health) == (PeerCoolingState {
            timeout_count: times.len() as usize,
            ..PeerCoolingState::fresh(start)
        }),
    decreases times.len(),
{
    if times.len() > 0 {
        let rest = times.drop_last();
        assert forall|i: int| 0 <= i < rest.len() implies elapsed_between(#[trigger] rest[i], start) <= secs(
            PEER_TIMEOUT_WINDOW_SECS,
        ).nanos by {
            assert(rest[i] == times[i]);
        }
        few_timeouts_do_not_suppress(start, rest, config, health);
        assert(elapsed_between(times[times.len() - 1], start) <= secs(PEER_TIMEOUT_WINDOW_SECS).nanos);
    }
}

/// As many timeouts as the threshold within one window suppress a peer that nobody suspects.
pub proof fn threshold_timeouts_suppress(
    start: Instant,
    times: Seq<Instant>,
    last: Instant,
    config: Option<AdaptiveCoolingConfig>,
    health: Option<PeerHealth>,
)
    requires
        health is None || health == Some(PeerHealth::Alive),
        times.len() == PEER_TIMEOUT_THRESHOLD - 1,
        forall|i: int|
            0 <= i < times.len() ==> elapsed_between(#[trigger] times[i], start) <= secs(PEER_TIMEOUT_WINDOW_SECS).nanos,
        elapsed_between(last, start) <= secs(PEER_TIMEOUT_WINDOW_SECS).nanos,
    ensures
        after_timeouts(PeerCoolingState::fresh(start), times, config, health).timeout_step(last, config, health)
            == (TimeoutStep::Suppressed {
            cooldown: PeerCoolingState::fresh(start).cooldown_after(config),
            recent_timeout_count: PEER_TIMEOUT_THRESHOLD,
        }),
{
    few_timeouts_do_not_suppress(start, times, config, health);
}

/// A suspect peer is never suppressed for its timeouts; a dead one always is at the first.
pub proof fn health_decides_over_timeouts(
    state: PeerCoolingState,
    now: Instant,
    config: Option<AdaptiveCoolingConfig>,
)
    requires
        !state.suppressed(now),
    ensures
        !(state.timeout_step(now, config, Some(PeerHealth::Suspect)) is Suppressed),
        state.timeout_step(now, config, Some(PeerHealth::Dead)) is Suppressed,
{
}

/// What a claim gives by the clock: a peer that was not suppressed is sent to; during its cooldown
/// one send passes an interval after the last; after it one recovery probe does, under a number of
/// its own; and while a probe is in flight nothing passes.
pub proof fn claims_go_by_the_clock(state: PeerCoolingState, now: Instant, ids: ProbeIds)
    ensures
        ({
            let claim = state.claim(now, ids);
            let after = state.claimed(now, claim);
            let probing = state.recovery_probe_in_flight;
            let runs = state.suppressed_until is Some && state.suppressed_until->0.nanos > now.nanos;
            let over = state.suppressed_until is Some && state.suppressed_until->0.nanos <= now.nanos;
            let quiet = state.last_bypass_probe_at is None || now.nanos >= state.last_bypass_probe_at->0.nanos
                + PEER_COOLDOWN_BYPASS_MIN_INTERVAL_SECS * crate::time::NANOS_PER_SEC;
            &&& state.suppressed_until is None ==> claim is Some && claim->0.kind == SendAttemptKind::Normal && after
                == state
            &&& runs && !probing && quiet ==> {
                &&& claim is Some && claim->0.kind == SendAttemptKind::CooldownBypass
                &&& claim->0.recovery_probe_id is None && claim->0.event is None
                &&& after.last_bypass_probe_at == Some(now)
                &&& after.suppressed_until == state.suppressed_until && after.cooldown == state.cooldown
            }
            &&& (runs && (probing || !quiet)) || (over && probing) ==> claim is None && after == state
            &&& over && !probing ==> {
                &&& claim is Some && claim->0.kind == SendAttemptKind::RecoveryProbe
                &&& claim->0.recovery_probe_id == Some(ids.next)
                &&& claim->0.event is Some
                &&& claim->0.event->0.suppressed_until == state.suppressed_until->0
                &&& claim->0.event->0.cooldown == state.cooldown
                &&& state.last_suppression_timeout_count > 0 ==> claim->0.event->0.recent_timeout_count
                    == state.last_suppression_timeout_count
                &&& state.last_suppression_timeout_count == 0 ==> claim->0.event->0.recent_timeout_count == 1
                &&& after.recovery_probe_in_flight && after.recovery_probe_id == Some(ids.next)
                &&& after.suppressed_until == state.suppressed_until && after.cooldown == state.cooldown
                &&& after.timeout_count == state.timeout_count
            }
        }),
        ids.advanced().next != ids.next,
{
}

/// What a timeout does in numbers. A peer that is suppressed is left alone. Else the timeout is
/// counted, from one again where the window is over. A dead peer is suppressed at once and any other
/// at the threshold, but a suspect one is held one below it. A suppression lasts from now on for the
/// cooldown that follows the last one.
pub proof fn timeouts_count_up_to_the_threshold(
    state: PeerCoolingState,
    now: Instant,
    config: AdaptiveCoolingConfig,
    health: Option<PeerHealth>,
)
    requires
        now.can_advance(config.max),
        state.timeout_count < usize::MAX,
    ensures
        ({
            let step = state.timeout_step(now, Some(config), health);
            let after = state.timed_out(now, step);
            let aside = state.suppressed_until is Some || state.recovery_probe_in_flight;
            let over = now.nanos > state.timeout_window_started.nanos + PEER_TIMEOUT_WINDOW_SECS
                * crate::time::NANOS_PER_SEC;
            let count = if over { 1 } else { state.timeout_count + 1 };
            let dead = health == Some(PeerHealth::Dead);
            let cooldown = if dead { config.on_dead(state.cooldown) } else { config.next(state.cooldown) };
            &&& aside ==> after == state && step == TimeoutStep::Ignored
            &&& !aside && !dead && count < PEER_TIMEOUT_THRESHOLD ==> {
                &&& step == TimeoutStep::Counted
                &&& after.timeout_count == count
                &&& after.timeout_window_started == if over { now } else { state.timeout_window_started }
                &&& after.suppressed_until is None && after.cooldown == state.cooldown
            }
            &&& !aside && health == Some(PeerHealth::Suspect) && count >= PEER_TIMEOUT_THRESHOLD ==> {
                &&& step == TimeoutStep::HeldForProbe
                &&& after.timeout_count == PEER_TIMEOUT_THRESHOLD - 1
                &&& after.timeout_window_started == now
                &&& after.suppressed_until is None
            }
            &&& !aside && (dead || (health != Some(PeerHealth::Suspect) && count >= PEER_TIMEOUT_THRESHOLD)) ==> {
                &&& step == (TimeoutStep::Suppressed { cooldown, recent_timeout_count: count as usize })
                &&& after.suppressed_until is Some && after.suppressed_until->0.nanos == now.nanos + cooldown.nanos
                &&& after.cooldown == cooldown
                &&& after.last_suppressed_at == Some(now)
                &&& after.last_suppression_timeout_count == count
                &&& after.timeout_count == 0 && after.timeout_window_started == now
                &&& !after.recovery_probe_in_flight && after.recovery_probe_id is None
            }
        }),
{
    crate::timing::cooldown_never_exceeds_max(config, state.cooldown);
}

/// The cooldown without a configuration in numbers: the first one after a peer was let back in, and
/// from then on twice the last one, up to the longest.
pub proof fn cooldowns_double_while_a_peer_is_not_let_in(state: PeerCoolingState)
    ensures
        ({
            let first = PEER_SUPPRESSION_COOLDOWN_SECS * crate::time::NANOS_PER_SEC;
            let longest = PEER_SUPPRESSION_BACKOFF_MAX_SECS * crate::time::NANOS_PER_SEC;
            let r = state.legacy_cooldown().nanos;
            let fresh = state.suppressed_until is None || state.cooldown.nanos == 0;
            &&& fresh ==> r == first
            &&& !fresh && 2 * state.cooldown.nanos <= longest ==> r == 2 * state.cooldown.nanos
            &&& !fresh && 2 * state.cooldown.nanos > longest ==> r == longest
        }),
{
}

/// A peer that is let back in starts anew: nothing holds it back, and no timeout counts against it.
pub proof fn cleared_peers_start_anew(state: PeerCoolingState, now: Instant, cooldown: Duration, ids: ProbeIds, later: Instant)
    ensures
        ({
            let after = state.cleared(now, cooldown);
            &&& after.suppressed_until is None && !after.recovery_probe_in_flight && after.recovery_probe_id is None
            &&& after.timeout_count == 0 && after.timeout_window_started == now
            &&& after.cooldown == cooldown
            &&& after.last_suppressed_at == state.last_suppressed_at
            &&& !after.suppressed(later)
            &&& after.claim(later, ids) is Some && after.claim(later, ids)->0.kind == SendAttemptKind::Normal
        }),
{
}

/// A new suppression does not let a peer be sent to any sooner: when it was last sent to despite one
/// is still known.
pub proof fn suppressions_keep_the_last_bypass(state: PeerCoolingState, now: Instant, cooldown: Duration, count: usize)
    ensures
        state.suppressed_from(now, cooldown, count).last_bypass_probe_at == state.last_bypass_probe_at,
        state.cleared(now, cooldown).last_bypass_probe_at == state.last_bypass_probe_at,
        state.timed_out(now, TimeoutStep::HeldForProbe).last_bypass_probe_at == state.last_bypass_probe_at,
        state.timed_out(now, TimeoutStep::Counted).last_bypass_probe_at == state.last_bypass_probe_at,
{
}

} // verus!
