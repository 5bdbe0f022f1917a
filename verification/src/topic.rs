//! What a node keeps of one topic.

use vstd::prelude::*;

use crate::cache::{BoundedMessageCache, PubSubCacheConfig};
use crate::collections::{IdMap, IdSet};
use crate::config::{secs, MAX_EAGER_DEGREE, OUTBOUND_CRITICAL_QUEUE_PER_PEER, REPLAY_CACHE_TTL_SECS};
use crate::cooling::{
    can_suppress, PeerCoolingState, PeerHealth, PeerRecoveryProbeEvent, PeerSendAttempt, PeerSuppressionEvent,
    PeerTimeoutOutcome, ProbeIds, SendAttemptKind, TimeoutStep,
};
use crate::ids::{MessageId, PeerId};
use crate::replay::ReplayCache;
use crate::score::PeerScore;
use crate::time::{elapsed_between, Duration, Instant};
use crate::timing::AdaptiveCoolingConfig;

verus! {

/// The mesh, the messages and the peers of one topic.
pub struct TopicState {
    /// Peers that get full messages.
    pub eager_peers: IdSet<PeerId>,
    /// Peers that get announcements only.
    pub lazy_peers: IdSet<PeerId>,
    pub message_cache: BoundedMessageCache,
    /// Messages that the next announcement names.
    pub pending_ihave: Vec<MessageId>,
    /// Messages that were asked for: of whom, and when.
    pub outstanding_iwants: IdMap<MessageId, (PeerId, Instant)>,
    pub peer_scores: IdMap<PeerId, PeerScore>,
    /// Local subscribers whose channel is open.
    pub live_subscribers: usize,
    pub replay_cache: ReplayCache,
    pub last_activity: Instant,
    pub peer_cooling: IdMap<PeerId, PeerCoolingState>,
    /// When an eager peer was last replaced for its score.
    pub last_opportunistic_graft: Option<Instant>,
    /// Most eager peers.
    pub max_eager_degree: usize,
}

/// A peer's score where it has one, else that of an unknown peer.
pub open spec fn score_or_new(scores: Map<PeerId, PeerScore>, peer: PeerId, now: Instant) -> PeerScore {
    if scores.dom().contains(peer) { scores[peer] } else { PeerScore::unknown(now) }
}

/// A peer's cooling state where it has one, else a fresh one.
pub open spec fn cooling_or_new(cooling: Map<PeerId, PeerCoolingState>, peer: PeerId, now: Instant) -> PeerCoolingState {
    if cooling.dom().contains(peer) { cooling[peer] } else { PeerCoolingState::fresh(now) }
}

impl TopicState {
    /// The parts are well-formed.
    pub open spec fn wf(&self) -> bool {
        &&& self.eager_peers.wf()
        &&& self.lazy_peers.wf()
        &&& self.message_cache.wf()
        &&& self.outstanding_iwants.wf()
        &&& self.peer_scores.wf()
        &&& self.replay_cache.wf()
        &&& self.peer_cooling.wf()
    }

    /// No peer is both eager and lazy.
    pub open spec fn roles_disjoint(&self) -> bool {
        self.eager_peers@.disjoint(self.lazy_peers@)
    }

    pub open spec fn same_mesh(&self, other: &Self) -> bool {
        &&& self.eager_peers == other.eager_peers
        &&& self.lazy_peers == other.lazy_peers
        &&& self.last_opportunistic_graft == other.last_opportunistic_graft
        &&& self.max_eager_degree == other.max_eager_degree
    }

    pub open spec fn same_messages(&self, other: &Self) -> bool {
        &&& self.message_cache == other.message_cache
        &&& self.pending_ihave == other.pending_ihave
        &&& self.outstanding_iwants == other.outstanding_iwants
        &&& self.live_subscribers == other.live_subscribers
        &&& self.replay_cache == other.replay_cache
        &&& self.last_activity == other.last_activity
    }

    /// The peer takes no part in the mesh.
    pub open spec fn peer_suppressed(&self, peer: PeerId, now: Instant) -> bool {
        self.peer_cooling@.dom().contains(peer) && self.peer_cooling@[peer].suppressed(now)
    }

    /// The eager peers after `peer` was demoted.
    pub open spec fn demoted(&self, other: &Self, peer: PeerId) -> bool {
        &&& self.eager_peers@ == other.eager_peers@.remove(peer)
        &&& self.lazy_peers@ == if other.eager_peers@.contains(peer) {
            other.lazy_peers@.insert(peer)
        } else {
            other.lazy_peers@
        }
        &&& self.last_opportunistic_graft == other.last_opportunistic_graft
        &&& self.max_eager_degree == other.max_eager_degree
    }

    /// What the timeout of an admitted send leads to. A recovery probe that is not the one in
    /// flight counts for nothing; the one in flight suppresses the peer again at once.
    pub open spec fn timeout_effect(
        &self,
        attempt: PeerSendAttempt,
        now: Instant,
        config: Option<AdaptiveCoolingConfig>,
        health: Option<PeerHealth>,
    ) -> TimeoutStep {
        let cooling = self.peer_cooling@;
        if attempt.kind == SendAttemptKind::RecoveryProbe {
            if cooling.dom().contains(attempt.peer) && cooling[attempt.peer].owns_probe(attempt.recovery_probe_id) {
                TimeoutStep::Suppressed {
                    cooldown: cooling[attempt.peer].cooldown_after(config),
                    recent_timeout_count: 1,
                }
            } else {
                TimeoutStep::Ignored
            }
        } else {
            cooling_or_new(cooling, attempt.peer, now).timeout_step(now, config, health)
        }
    }

    /// The scores after the timeout of an admitted send.
    pub open spec fn scores_after_timeout(&self, attempt: PeerSendAttempt, now: Instant, effect: TimeoutStep) -> Map<
        PeerId,
        PeerScore,
    > {
        let scores = self.peer_scores@;
        let score = score_or_new(scores, attempt.peer, now);
        match effect {
            TimeoutStep::Suppressed { .. } => scores.insert(
                attempt.peer,
                if attempt.kind == SendAttemptKind::CooldownBypass {
                    score.cooled(now)
                } else {
                    score.send_timed_out(now).cooled(now)
                },
            ),
            _ => if attempt.kind == SendAttemptKind::Normal {
                scores.insert(attempt.peer, score.send_timed_out(now))
            } else {
                scores
            },
        }
    }

    /// The cooling states after the timeout of an admitted send.
    pub open spec fn cooling_after_timeout(&self, attempt: PeerSendAttempt, now: Instant, effect: TimeoutStep) -> Map<
        PeerId,
        PeerCoolingState,
    > {
        match effect {
            TimeoutStep::Ignored => self.peer_cooling@,
            _ => self.peer_cooling@.insert(
                attempt.peer,
                cooling_or_new(self.peer_cooling@, attempt.peer, now).timed_out(now, effect),
            ),
        }
    }

    /// What is reported of the timeout of an admitted send.
    pub open spec fn outcome_of(&self, attempt: PeerSendAttempt, now: Instant, effect: TimeoutStep) -> PeerTimeoutOutcome {
        PeerTimeoutOutcome {
            suppression: match effect {
                TimeoutStep::Suppressed { cooldown, recent_timeout_count } => Some(
                    PeerSuppressionEvent {
                        suppressed_until: Instant { nanos: (now.nanos + cooldown.nanos) as u128 },
                        recent_timeout_count,
                        cooldown,
                        demoted: self.eager_peers@.contains(attempt.peer),
                    },
                ),
                _ => None,
            },
            request_indirect_probe: effect is HeldForProbe,
        }
    }

    /// All that the timeout of an admitted send changes.
    pub open spec fn after_timeout(&self, before: &Self, attempt: PeerSendAttempt, now: Instant, effect: TimeoutStep) -> bool {
        &&& self.peer_scores@ == before.scores_after_timeout(attempt, now, effect)
        &&& self.peer_cooling@ == before.cooling_after_timeout(attempt, now, effect)
        &&& if effect is Suppressed { self.demoted(before, attempt.peer) } else { self.same_mesh(before) }
        &&& self.same_messages(before)
    }

    /// What a full queue of critical sends leads to. A peer that is suppressed already is left
    /// alone, unless this send is the recovery probe in flight: that one cannot go out, and the
    /// peer is suppressed again.
    pub open spec fn overflow_effect(
        &self,
        attempt: PeerSendAttempt,
        now: Instant,
        health: Option<PeerHealth>,
        config: AdaptiveCoolingConfig,
    ) -> TimeoutStep {
        let cooling = cooling_or_new(self.peer_cooling@, attempt.peer, now);
        let probe = attempt.kind == SendAttemptKind::RecoveryProbe && cooling.owns_probe(attempt.recovery_probe_id);
        if cooling.suppressed(now) && !probe {
            TimeoutStep::Ignored
        } else {
            TimeoutStep::Suppressed {
                cooldown: if health == Some(PeerHealth::Dead) {
                    config.on_dead(cooling.cooldown)
                } else {
                    config.next(cooling.cooldown)
                },
                recent_timeout_count: OUTBOUND_CRITICAL_QUEUE_PER_PEER,
            }
        }
    }

    /// The scores after a full queue of critical sends.
    pub open spec fn scores_after_overflow(&self, attempt: PeerSendAttempt, now: Instant, effect: TimeoutStep) -> Map<
        PeerId,
        PeerScore,
    > {
        let scores = self.peer_scores@;
        let score = score_or_new(scores, attempt.peer, now);
        let noted = if attempt.kind == SendAttemptKind::Normal { score.send_timed_out(now) } else { score };
        if effect is Suppressed {
            scores.insert(attempt.peer, noted.cooled(now))
        } else if attempt.kind == SendAttemptKind::Normal {
            scores.insert(attempt.peer, noted)
        } else {
            scores
        }
    }

    /// The cooling states after the success of an admitted send. Only the probe in flight clears a
    /// suppression.
    pub open spec fn cooling_after_success(
        &self,
        attempt: PeerSendAttempt,
        now: Instant,
        config: AdaptiveCoolingConfig,
        decayed_above: Duration,
    ) -> Map<PeerId, PeerCoolingState> {
        let all = self.peer_cooling@;
        let state = all[attempt.peer];
        let cooldown = state.decayed_cooldown(now, config, decayed_above);
        if !all.dom().contains(attempt.peer) {
            all
        } else {
            match attempt.kind {
                SendAttemptKind::RecoveryProbe => if state.owns_probe(attempt.recovery_probe_id) {
                    all.insert(attempt.peer, state.cleared(now, cooldown))
                } else {
                    all
                },
                SendAttemptKind::CooldownBypass => all.insert(attempt.peer, PeerCoolingState { cooldown, ..state }),
                SendAttemptKind::Normal => if state.suppressed(now) {
                    all
                } else {
                    all.insert(
                        attempt.peer,
                        PeerCoolingState { cooldown, timeout_count: 0, timeout_window_started: now, ..state },
                    )
                },
            }
        }
    }

    /// All that a claim on a send to a peer changes, and what it gives.
    pub open spec fn send_claimed(
        &self,
        before: &Self,
        peer: PeerId,
        now: Instant,
        ids_before: ProbeIds,
        ids: ProbeIds,
        r: Option<(PeerSendAttempt, Option<PeerRecoveryProbeEvent>)>,
    ) -> bool {
        let cooling = before.peer_cooling@;
        &&& self.same_mesh(before)
        &&& self.same_messages(before)
        &&& self.peer_scores == before.peer_scores
        &&& if cooling.dom().contains(peer) {
            let claim = cooling[peer].claim(now, ids_before);
            &&& self.peer_cooling@ == cooling.insert(peer, cooling[peer].claimed(now, claim))
            &&& ids == (if claim is Some && claim->0.kind == SendAttemptKind::RecoveryProbe {
                ids_before.advanced()
            } else {
                ids_before
            })
            &&& r == match claim {
                None => None,
                Some(c) => Some(
                    (PeerSendAttempt { peer, kind: c.kind, recovery_probe_id: c.recovery_probe_id }, c.event),
                ),
            }
        } else {
            &&& self.peer_cooling@ == cooling
            &&& ids == ids_before
            &&& r == Some(
                (
                    PeerSendAttempt { peer, kind: SendAttemptKind::Normal, recovery_probe_id: None },
                    None::<PeerRecoveryProbeEvent>,
                ),
            )
        }
    }

    /// All that a full queue of critical sends changes.
    pub open spec fn after_overflow(&self, before: &Self, attempt: PeerSendAttempt, now: Instant, effect: TimeoutStep) -> bool {
        &&& self.peer_scores@ == before.scores_after_overflow(attempt, now, effect)
        &&& self.peer_cooling@ == before.cooling_after_timeout(attempt, now, effect)
        &&& if effect is Suppressed { self.demoted(before, attempt.peer) } else { self.same_mesh(before) }
        &&& self.same_messages(before)
    }

    /// All that the success of an admitted send changes.
    pub open spec fn after_success(
        &self,
        before: &Self,
        attempt: PeerSendAttempt,
        now: Instant,
        config: AdaptiveCoolingConfig,
        decayed_above: Duration,
    ) -> bool {
        &&& self.peer_cooling@ == before.cooling_after_success(attempt, now, config, decayed_above)
        &&& self.peer_scores@ == before.peer_scores@.insert(
            attempt.peer,
            score_or_new(before.peer_scores@, attempt.peer, now).sent(now, attempt.kind),
        )
        &&& self.same_mesh(before)
        &&& self.same_messages(before)
    }

    /// Whether this success ends a suppression.
    pub open spec fn ends_suppression(&self, attempt: PeerSendAttempt) -> bool {
        &&& attempt.kind == SendAttemptKind::RecoveryProbe
        &&& self.peer_cooling@.dom().contains(attempt.peer)
        &&& self.peer_cooling@[attempt.peer].owns_probe(attempt.recovery_probe_id)
    }

    /// An empty topic with a cache of the given bounds.
    pub fn with_cache_config(cache_config: PubSubCacheConfig, now: Instant) -> (r: Self)
        requires
            cache_config.valid(),
        ensures
            r.wf(),
            r.eager_peers@ == Set::<PeerId>::empty(),
            r.lazy_peers@ == Set::<PeerId>::empty(),
            r.message_cache.is_new(),
            r.message_cache.max_count() == cache_config.max_messages_per_topic,
            r.message_cache.max_bytes() == cache_config.max_bytes_per_topic,
            r.message_cache.max_age() == cache_config.max_age,
            r.pending_ihave@.len() == 0,
            r.outstanding_iwants@ == Map::<MessageId, (PeerId, Instant)>::empty(),
            r.peer_scores@ == Map::<PeerId, PeerScore>::empty(),
            r.live_subscribers == 0,
            r.replay_cache.seen().len() == 0,
            r.replay_cache.ttl() == secs(REPLAY_CACHE_TTL_SECS),
            r.last_activity == now,
            r.peer_cooling@ == Map::<PeerId, PeerCoolingState>::empty(),
            r.last_opportunistic_graft is None,
            r.max_eager_degree == MAX_EAGER_DEGREE,
    {
        TopicState {
            eager_peers: IdSet::new(),
            lazy_peers: IdSet::new(),
            message_cache: BoundedMessageCache::new(
                cache_config.max_messages_per_topic,
                cache_config.max_bytes_per_topic,
                cache_config.max_age,
            ),
            pending_ihave: Vec::new(),
            outstanding_iwants: IdMap::new(),
            peer_scores: IdMap::new(),
            live_subscribers: 0,
            replay_cache: ReplayCache::new(),
            last_activity: now,
            peer_cooling: IdMap::new(),
            last_opportunistic_graft: None,
            max_eager_degree: MAX_EAGER_DEGREE,
        }
    }

    pub fn is_peer_suppressed_at(&self, peer: PeerId, now: Instant) -> (r: bool)
        requires
            self.wf(),
        ensures
            r == self.peer_suppressed(peer, now),
    {
        match self.peer_cooling.get(&peer) {
            Some(state) => state.is_suppressed_at(now),
            None => false,
        }
    }

    pub fn can_graft_peer_at(&self, peer: PeerId, now: Instant) -> (r: bool)
        requires
            self.wf(),
        ensures
            r == !self.peer_suppressed(peer, now),
    {
        match self.peer_cooling.get(&peer) {
            Some(state) => state.can_graft_at(now),
            None => true,
        }
    }

    fn score_for(&self, peer: PeerId, now: Instant) -> (r: PeerScore)
        requires
            self.wf(),
        ensures
            r == score_or_new(self.peer_scores@, peer, now),
    {
        match self.peer_scores.get(&peer) {
            Some(score) => *score,
            None => PeerScore::new_at(now),
        }
    }

    fn cooling_for(&self, peer: PeerId, now: Instant) -> (r: PeerCoolingState)
        requires
            self.wf(),
        ensures
            r == cooling_or_new(self.peer_cooling@, peer, now),
    {
        match self.peer_cooling.get(&peer) {
            Some(state) => *state,
            None => PeerCoolingState::new(now),
        }
    }

    /// Moves a peer from eager to lazy; says whether it was eager.
    pub fn prune_peer(&mut self, peer: PeerId) -> (r: bool)
        requires
            old(self).wf(),
        ensures
            final(self).wf(),
            r == old(self).eager_peers@.contains(peer),
            final(self).demoted(old(self), peer),
            final(self).same_messages(old(self)),
            final(self).peer_scores == old(self).peer_scores,
            final(self).peer_cooling == old(self).peer_cooling,
            !r ==> *final(self) == *old(self),
    {
        if self.eager_peers.remove(&peer) {
            self.lazy_peers.insert(peer);
            true
        } else {
            assert(self.eager_peers@ =~= old(self).eager_peers@);
            false
        }
    }

    /// A message of the peer was verified: it was heard of, and it is no longer cooled. Says
    /// whether it was.
    pub fn record_inbound_peer_activity_at(&mut self, peer: PeerId, now: Instant) -> (r: bool)
        requires
            old(self).wf(),
        ensures
            final(self).wf(),
            r == old(self).peer_cooling@.dom().contains(peer),
            final(self).peer_cooling@ == old(self).peer_cooling@.remove(peer),
            final(self).peer_scores@ == old(self).peer_scores@.insert(
                peer,
                score_or_new(old(self).peer_scores@, peer, now).seen(now),
            ),
            final(self).same_mesh(old(self)),
            final(self).same_messages(old(self)),
    {
        let mut score = self.score_for(peer, now);
        score.record_seen_at(now);
        self.peer_scores.insert(peer, score);
        self.peer_cooling.remove(&peer).is_some()
    }

    /// Asks for a send to a peer.
    pub fn claim_send_attempt_at(&mut self, peer: PeerId, now: Instant, ids: &mut ProbeIds) -> (r: Option<
        (PeerSendAttempt, Option<PeerRecoveryProbeEvent>),
    >)
        requires
            old(self).wf(),
        ensures
            final(self).wf(),
            final(self).send_claimed(old(self), peer, now, *old(ids), *final(ids), r),
    {
        let mut state = match self.peer_cooling.get(&peer) {
            Some(state) => *state,
            None => {
                return Some(
                    (PeerSendAttempt { peer, kind: SendAttemptKind::Normal, recovery_probe_id: None }, None),
                );
            },
        };
        let claim = state.claim_send_attempt_at(now, ids);
        self.peer_cooling.insert(peer, state);
        match claim {
            None => None,
            Some(c) => Some(
                (PeerSendAttempt { peer, kind: c.kind, recovery_probe_id: c.recovery_probe_id }, c.event),
            ),
        }
    }

    /// What a success of this send would let decay: the part of the peer's cooldown above the
    /// first one, and the time since its suppression. `None` where nothing would.
    pub fn decay_input_at(&self, attempt: PeerSendAttempt, now: Instant, cooling_config: AdaptiveCoolingConfig) -> (r:
        Option<(Duration, Duration)>)
        requires
            self.wf(),
        ensures
            ({
                let all = self.peer_cooling@;
                let state = all[attempt.peer];
                let due = all.dom().contains(attempt.peer) && state.last_suppressed_at is Some && match attempt.kind {
                    SendAttemptKind::RecoveryProbe => state.owns_probe(attempt.recovery_probe_id),
                    SendAttemptKind::CooldownBypass => true,
                    SendAttemptKind::Normal => !state.suppressed(now),
                } && state.cooldown.nanos > cooling_config.initial.nanos;
                match r {
                    Some((above, elapsed)) => {
                        &&& due
                        &&& above.nanos == state.cooldown.nanos - cooling_config.initial.nanos
                        &&& elapsed.nanos == elapsed_between(now, state.last_suppressed_at->0)
                    },
                    None => !due,
                }
            }),
    {
        let state = match self.peer_cooling.get(&attempt.peer) {
            Some(state) => *state,
            None => {
                return None;
            },
        };
        let counts = match attempt.kind {
            SendAttemptKind::RecoveryProbe => state.matches_recovery_probe(attempt.recovery_probe_id),
            SendAttemptKind::CooldownBypass => true,
            SendAttemptKind::Normal => !state.is_suppressed_at(now),
        };
        if !counts || state.cooldown.nanos <= cooling_config.initial.nanos {
            return None;
        }
        match state.last_suppressed_at {
            Some(at) => Some(
                (state.cooldown.saturating_minus(cooling_config.initial), now.saturating_duration_since(at)),
            ),
            None => None,
        }
    }

    /// An admitted send succeeded; says whether that ended a suppression. `decayed_above` is what
    /// is left of the amount that `decay_input_at` gave.
    pub fn record_send_success_with_context_at(
        &mut self,
        attempt: PeerSendAttempt,
        now: Instant,
        cooling_config: AdaptiveCoolingConfig,
        decayed_above: Duration,
    ) -> (r: bool)
        requires
            old(self).wf(),
        ensures
            final(self).wf(),
            r == old(self).ends_suppression(attempt),
            final(self).after_success(old(self), attempt, now, cooling_config, decayed_above),
    {
        let mut score = self.score_for(attempt.peer, now);
        score.record_outbound_send_success_at(now, attempt.kind);
        self.peer_scores.insert(attempt.peer, score);

        let mut state = match self.peer_cooling.get(&attempt.peer) {
            Some(state) => *state,
            None => {
                return false;
            },
        };
        match attempt.kind {
            SendAttemptKind::RecoveryProbe => {
                if !state.matches_recovery_probe(attempt.recovery_probe_id) {
                    return false;
                }
                state.decay(now, cooling_config, decayed_above);
                state.clear(now);
                self.peer_cooling.insert(attempt.peer, state);
                true
            },
            SendAttemptKind::CooldownBypass => {
                state.decay(now, cooling_config, decayed_above);
                self.peer_cooling.insert(attempt.peer, state);
                false
            },
            SendAttemptKind::Normal => {
                if !state.is_suppressed_at(now) {
                    state.decay(now, cooling_config, decayed_above);
                    state.timeout_count = 0;
                    state.timeout_window_started = now;
                    self.peer_cooling.insert(attempt.peer, state);
                }
                false
            },
        }
    }

    /// Notes a suppression in the score and takes the peer out of the eager ones.
    fn settle_suppression(&mut self, attempt: PeerSendAttempt, now: Instant) -> (r: bool)
        requires
            old(self).wf(),
        ensures
            final(self).wf(),
            r == old(self).eager_peers@.contains(attempt.peer),
            final(self).peer_scores@ == old(self).peer_scores@.insert(
                attempt.peer,
                if attempt.kind == SendAttemptKind::RecoveryProbe {
                    score_or_new(old(self).peer_scores@, attempt.peer, now).send_timed_out(now).cooled(now)
                } else {
                    score_or_new(old(self).peer_scores@, attempt.peer, now).cooled(now)
                },
            ),
            final(self).demoted(old(self), attempt.peer),
            final(self).same_messages(old(self)),
            final(self).peer_cooling == old(self).peer_cooling,
    {
        let mut score = self.score_for(attempt.peer, now);
        if attempt.kind == SendAttemptKind::RecoveryProbe {
            score.record_outbound_send_timeout_at(now);
        }
        score.record_cooling_event_at(now);
        self.peer_scores.insert(attempt.peer, score);
        self.prune_peer(attempt.peer)
    }

    /// An admitted send timed out.
    pub fn record_send_timeout_with_context_at(
        &mut self,
        attempt: PeerSendAttempt,
        now: Instant,
        health: Option<PeerHealth>,
        cooling_config: AdaptiveCoolingConfig,
    ) -> (r: PeerTimeoutOutcome)
        requires
            old(self).wf(),
            now.can_advance(cooling_config.max),
        ensures
            final(self).wf(),
            ({
                let effect = old(self).timeout_effect(attempt, now, Some(cooling_config), health);
                &&& r == old(self).outcome_of(attempt, now, effect)
                &&& final(self).after_timeout(old(self), attempt, now, effect)
            }),
    {
        self.record_send_timeout_inner_at(attempt, now, Some(cooling_config), health)
    }

    /// An admitted send timed out, and nothing is known of the peer's health. The cooldown doubles
    /// from one suppression to the next.
    pub fn record_send_timeout_legacy_at(&mut self, attempt: PeerSendAttempt, now: Instant) -> (r: PeerTimeoutOutcome)
        requires
            old(self).wf(),
            can_suppress(now, None),
        ensures
            final(self).wf(),
            ({
                let effect = old(self).timeout_effect(attempt, now, None, None);
                &&& r == old(self).outcome_of(attempt, now, effect)
                &&& final(self).after_timeout(old(self), attempt, now, effect)
            }),
    {
        self.record_send_timeout_inner_at(attempt, now, None, None)
    }

    fn record_send_timeout_inner_at(
        &mut self,
        attempt: PeerSendAttempt,
        now: Instant,
        cooling_config: Option<AdaptiveCoolingConfig>,
        health: Option<PeerHealth>,
    ) -> (r: PeerTimeoutOutcome)
        requires
            old(self).wf(),
            can_suppress(now, cooling_config),
        ensures
            final(self).wf(),
            ({
                let effect = old(self).timeout_effect(attempt, now, cooling_config, health);
                &&& r == old(self).outcome_of(attempt, now, effect)
                &&& final(self).after_timeout(old(self), attempt, now, effect)
            }),
    {
        if attempt.kind == SendAttemptKind::Normal {
            let mut score = self.score_for(attempt.peer, now);
            score.record_outbound_send_timeout_at(now);
            self.peer_scores.insert(attempt.peer, score);
        }
        let step = if attempt.kind == SendAttemptKind::RecoveryProbe {
            let mut state = match self.peer_cooling.get(&attempt.peer) {
                Some(state) => *state,
                None => {
                    return PeerTimeoutOutcome { suppression: None, request_indirect_probe: false };
                },
            };
            if !state.matches_recovery_probe(attempt.recovery_probe_id) {
                return PeerTimeoutOutcome { suppression: None, request_indirect_probe: false };
            }
            let cooldown = state.escalated(cooling_config);
            state.suppress(now, cooldown, 1);
            self.peer_cooling.insert(attempt.peer, state);
            TimeoutStep::Suppressed { cooldown, recent_timeout_count: 1 }
        } else {
            let mut state = self.cooling_for(attempt.peer, now);
            let step = state.record_timeout_at(now, cooling_config, health);
            self.peer_cooling.insert(attempt.peer, state);
            step
        };
        assert(step is Ignored ==> self.peer_cooling@ =~= old(self).peer_cooling@);
        match step {
            TimeoutStep::Suppressed { cooldown, recent_timeout_count } => {
                let demoted = self.settle_suppression(attempt, now);
                assert(self.peer_scores@ =~= old(self).scores_after_timeout(attempt, now, step));
                PeerTimeoutOutcome {
                    suppression: Some(
                        PeerSuppressionEvent {
                            suppressed_until: now.plus(cooldown),
                            recent_timeout_count,
                            cooldown,
                            demoted,
                        },
                    ),
                    request_indirect_probe: false,
                }
            },
            TimeoutStep::HeldForProbe => PeerTimeoutOutcome { suppression: None, request_indirect_probe: true },
            _ => PeerTimeoutOutcome { suppression: None, request_indirect_probe: false },
        }
    }

    /// The queue of critical sends to a peer is full: the peer is suppressed at once, if it is not
    /// already. A recovery probe that was to be sent is over with that.
    pub fn record_critical_gate_overflow_with_context_at(
        &mut self,
        attempt: PeerSendAttempt,
        now: Instant,
        health: Option<PeerHealth>,
        cooling_config: AdaptiveCoolingConfig,
    ) -> (r: PeerTimeoutOutcome)
        requires
            old(self).wf(),
            now.can_advance(cooling_config.max),
        ensures
            final(self).wf(),
            ({
                let effect = old(self).overflow_effect(attempt, now, health, cooling_config);
                &&& r == old(self).outcome_of(attempt, now, effect)
                &&& final(self).after_overflow(old(self), attempt, now, effect)
            }),
    {
        if attempt.kind == SendAttemptKind::Normal {
            let mut score = self.score_for(attempt.peer, now);
            score.record_outbound_send_timeout_at(now);
            self.peer_scores.insert(attempt.peer, score);
        }
        let mut state = self.cooling_for(attempt.peer, now);
        let probe = attempt.kind == SendAttemptKind::RecoveryProbe && state.matches_recovery_probe(
            attempt.recovery_probe_id,
        );
        if state.is_suppressed_at(now) && !probe {
            return PeerTimeoutOutcome { suppression: None, request_indirect_probe: false };
        }
        let dead = match health {
            Some(PeerHealth::Dead) => true,
            _ => false,
        };
        let cooldown = if dead {
            state.dead_cooldown(cooling_config)
        } else {
            state.next_adaptive_cooldown(cooling_config)
        };
        state.suppress(now, cooldown, OUTBOUND_CRITICAL_QUEUE_PER_PEER);
        self.peer_cooling.insert(attempt.peer, state);
        let mut score = self.score_for(attempt.peer, now);
        score.record_cooling_event_at(now);
        self.peer_scores.insert(attempt.peer, score);
        let demoted = self.prune_peer(attempt.peer);
        proof {
            let effect = old(self).overflow_effect(attempt, now, health, cooling_config);
            assert(self.peer_scores@ =~= old(self).scores_after_overflow(attempt, now, effect));
        }
        PeerTimeoutOutcome {
            suppression: Some(
                PeerSuppressionEvent {
                    suppressed_until: now.plus(cooldown),
                    recent_timeout_count: OUTBOUND_CRITICAL_QUEUE_PER_PEER,
                    cooldown,
                    demoted,
                },
            ),
            request_indirect_probe: false,
        }
    }
}

/// A peer that an admitted send suppresses is no longer eager but lazy; without a suppression nobody
/// moves, and with one nobody else does.
pub proof fn suppressed_peers_are_demoted(
    before: TopicState,
    after: TopicState,
    attempt: PeerSendAttempt,
    now: Instant,
    effect: TimeoutStep,
    other: PeerId,
)
    requires
        after.after_timeout(&before, attempt, now, effect) || after.after_overflow(&before, attempt, now, effect),
    ensures
        effect is Suppressed ==> !after.eager_peers@.contains(attempt.peer),
        effect is Suppressed && before.eager_peers@.contains(attempt.peer) ==> after.lazy_peers@.contains(attempt.peer),
        effect is Suppressed ==> (before.outcome_of(attempt, now, effect).suppression is Some
            && before.outcome_of(attempt, now, effect).suppression->0.demoted == before.eager_peers@.contains(
            attempt.peer,
        )),
        !(effect is Suppressed) ==> after.eager_peers@ == before.eager_peers@ && after.lazy_peers@ == before.lazy_peers@
            && before.outcome_of(attempt, now, effect).suppression is None,
        other != attempt.peer ==> after.eager_peers@.contains(other) == before.eager_peers@.contains(other),
        other != attempt.peer ==> after.lazy_peers@.contains(other) == before.lazy_peers@.contains(other),
        other != attempt.peer ==> after.peer_cooling@.dom().contains(other) == before.peer_cooling@.dom().contains(
            other,
        ),
        other != attempt.peer && before.peer_cooling@.dom().contains(other) ==> after.peer_cooling@[other]
            == before.peer_cooling@[other],
        other != attempt.peer ==> after.peer_scores@.dom().contains(other) == before.peer_scores@.dom().contains(other),
        other != attempt.peer && before.peer_scores@.dom().contains(other) ==> after.peer_scores@[other]
            == before.peer_scores@[other],
        after.message_cache == before.message_cache && after.pending_ihave == before.pending_ihave,
{
}

/// What a timeout counts as: one timed-out send of the peer where it was an ordinary one or the
/// probe in flight, and one cooling where it led to a suppression.
pub proof fn timeouts_count_against_the_peer(
    before: TopicState,
    after: TopicState,
    attempt: PeerSendAttempt,
    now: Instant,
    config: Option<AdaptiveCoolingConfig>,
    health: Option<PeerHealth>,
)
    requires
        after.after_timeout(&before, attempt, now, before.timeout_effect(attempt, now, config, health)),
        before.peer_scores@.dom().contains(attempt.peer),
        before.peer_scores@[attempt.peer].outbound_send_timeouts.events < u64::MAX,
        before.peer_scores@[attempt.peer].cooling_events.events < u64::MAX,
    ensures
        ({
            let effect = before.timeout_effect(attempt, now, config, health);
            let old_score = before.peer_scores@[attempt.peer];
            let score = after.peer_scores@[attempt.peer];
            let timed_out = attempt.kind == SendAttemptKind::Normal || (attempt.kind == SendAttemptKind::RecoveryProbe
                && effect is Suppressed);
            &&& score.outbound_send_timeouts.events == old_score.outbound_send_timeouts.events + (if timed_out {
                1int
            } else {
                0
            })
            &&& timed_out ==> score.outbound_send_timeouts.updated_at == now
            &&& score.cooling_events.events == old_score.cooling_events.events + (if effect is Suppressed {
                1int
            } else {
                0
            })
            &&& effect is Suppressed ==> score.cooling_events.updated_at == now
            &&& score.outbound_send_successes == old_score.outbound_send_successes
            &&& score.messages_delivered == old_score.messages_delivered
            &&& score.last_seen == old_score.last_seen
        }),
{
}

/// The recovery probe in flight is the only one that counts: where it fails the peer is suppressed
/// from now on for the next cooldown, and where another one does nothing changes.
pub proof fn only_the_probe_in_flight_counts(
    before: TopicState,
    after: TopicState,
    attempt: PeerSendAttempt,
    now: Instant,
    config: AdaptiveCoolingConfig,
    health: Option<PeerHealth>,
)
    requires
        now.can_advance(config.max),
        attempt.kind == SendAttemptKind::RecoveryProbe,
        after.after_timeout(&before, attempt, now, before.timeout_effect(attempt, now, Some(config), health)),
    ensures
        ({
            let peer = attempt.peer;
            let cooling = before.peer_cooling@;
            let own = cooling.dom().contains(peer) && cooling[peer].recovery_probe_in_flight
                && cooling[peer].recovery_probe_id == attempt.recovery_probe_id;
            let state = after.peer_cooling@[peer];
            &&& own ==> {
                &&& after.peer_cooling@.dom().contains(peer)
                &&& state.cooldown == config.next(cooling[peer].cooldown)
                &&& state.suppressed_until is Some && state.suppressed_until->0.nanos == now.nanos
                    + state.cooldown.nanos
                &&& !state.recovery_probe_in_flight && state.recovery_probe_id is None
                &&& state.last_suppression_timeout_count == 1
            }
            &&& !own ==> after.peer_cooling@ == cooling && after.eager_peers@ == before.eager_peers@
                && after.peer_scores@ == before.peer_scores@
        }),
{
    crate::timing::cooldown_never_exceeds_max(config, before.peer_cooling@[attempt.peer].cooldown);
}

/// What a success does: it counts for the peer; the probe in flight lets the peer back in; an
/// ordinary send to a peer that is not suppressed takes its timeouts back; a send during a cooldown
/// leaves the suppression as it is; and nobody else is touched.
pub proof fn successes_count_for_the_peer(
    before: TopicState,
    after: TopicState,
    attempt: PeerSendAttempt,
    now: Instant,
    config: AdaptiveCoolingConfig,
    decayed_above: Duration,
    other: PeerId,
)
    requires
        after.after_success(&before, attempt, now, config, decayed_above),
        before.peer_scores@.dom().contains(attempt.peer)
            ==> before.peer_scores@[attempt.peer].outbound_send_successes.events < u64::MAX
            && before.peer_scores@[attempt.peer].recovery_successes.events < u64::MAX,
    ensures
        ({
            let peer = attempt.peer;
            let cooling = before.peer_cooling@;
            let known = before.peer_scores@.dom().contains(peer);
            let sent = if known { before.peer_scores@[peer].outbound_send_successes.events } else { 0 };
            let recovered = if known { before.peer_scores@[peer].recovery_successes.events } else { 0 };
            let probe = attempt.kind == SendAttemptKind::RecoveryProbe;
            let own = probe && cooling.dom().contains(peer) && cooling[peer].recovery_probe_in_flight
                && cooling[peer].recovery_probe_id == attempt.recovery_probe_id;
            let aside = cooling.dom().contains(peer) && (cooling[peer].suppressed_until is Some
                || cooling[peer].recovery_probe_in_flight);
            let state = after.peer_cooling@[peer];
            &&& after.peer_scores@.dom().contains(peer)
            &&& after.peer_scores@[peer].outbound_send_successes.events == sent + 1
            &&& after.peer_scores@[peer].outbound_send_successes.updated_at == now
            &&& after.peer_scores@[peer].recovery_successes.events == recovered + (if probe { 1int } else { 0 })
            &&& known ==> after.peer_scores@[peer].outbound_send_timeouts
                == before.peer_scores@[peer].outbound_send_timeouts
            &&& after.peer_cooling@.dom() == cooling.dom()
            &&& own <==> before.ends_suppression(attempt)
            &&& own ==> state.suppressed_until is None && !state.recovery_probe_in_flight && state.timeout_count == 0
            &&& probe && !own ==> after.peer_cooling@ == cooling
            &&& attempt.kind == SendAttemptKind::Normal && aside ==> after.peer_cooling@ == cooling
            &&& attempt.kind == SendAttemptKind::Normal && cooling.dom().contains(peer) && !aside
                ==> state.timeout_count == 0 && state.timeout_window_started == now && state.suppressed_until is None
            &&& attempt.kind == SendAttemptKind::CooldownBypass && cooling.dom().contains(peer)
                ==> state.suppressed_until == cooling[peer].suppressed_until && state.timeout_count
                == cooling[peer].timeout_count && state.recovery_probe_in_flight
                == cooling[peer].recovery_probe_in_flight
            &&& cooling.dom().contains(peer) && cooling[peer].last_suppressed_at is None ==> state.cooldown
                == cooling[peer].cooldown
        }),
        other != attempt.peer && before.peer_cooling@.dom().contains(other) ==> after.peer_cooling@[other]
            == before.peer_cooling@[other],
        other != attempt.peer && before.peer_scores@.dom().contains(other) ==> after.peer_scores@[other]
            == before.peer_scores@[other],
        after.eager_peers@ == before.eager_peers@ && after.lazy_peers@ == before.lazy_peers@,
{
    assert(after.peer_cooling@.dom() =~= before.peer_cooling@.dom());
}

/// What is left of a cooldown after a success that lets it decay, in numbers.
pub proof fn successes_let_the_cooldown_decay(
    before: TopicState,
    after: TopicState,
    attempt: PeerSendAttempt,
    now: Instant,
    config: AdaptiveCoolingConfig,
    decayed_above: Duration,
)
    requires
        after.after_success(&before, attempt, now, config, decayed_above),
        config.initial.nanos <= config.max.nanos,
        before.peer_cooling@.dom().contains(attempt.peer),
        before.peer_cooling@[attempt.peer].last_suppressed_at is Some,
        now.nanos > before.peer_cooling@[attempt.peer].last_suppressed_at->0.nanos,
        before.peer_cooling@[attempt.peer].cooldown.nanos > config.initial.nanos,
        config.initial.nanos + decayed_above.nanos <= config.max.nanos,
        attempt.kind == SendAttemptKind::CooldownBypass || (attempt.kind == SendAttemptKind::Normal
            && before.peer_cooling@[attempt.peer].suppressed_until is None
            && !before.peer_cooling@[attempt.peer].recovery_probe_in_flight) || (attempt.kind
            == SendAttemptKind::RecoveryProbe && before.peer_cooling@[attempt.peer].recovery_probe_in_flight
            && before.peer_cooling@[attempt.peer].recovery_probe_id == attempt.recovery_probe_id),
    ensures
        after.peer_cooling@[attempt.peer].cooldown.nanos == config.initial.nanos + decayed_above.nanos,
{
}

/// A full queue of critical sends suppresses the peer from now on, for the next cooldown or, where
/// it is reported dead, for twice the last one; unless the peer is suppressed already.
pub proof fn full_queues_suppress_at_once(
    before: TopicState,
    after: TopicState,
    attempt: PeerSendAttempt,
    now: Instant,
    config: AdaptiveCoolingConfig,
    health: Option<PeerHealth>,
)
    requires
        now.can_advance(config.max),
        after.after_overflow(&before, attempt, now, before.overflow_effect(attempt, now, health, config)),
    ensures
        ({
            let peer = attempt.peer;
            let known = before.peer_cooling@.dom().contains(peer);
            let old_state = before.peer_cooling@[peer];
            let last = if known { old_state.cooldown } else { Duration { nanos: 0 } };
            let aside = known && (old_state.suppressed_until is Some || old_state.recovery_probe_in_flight);
            let own = known && attempt.kind == SendAttemptKind::RecoveryProbe && old_state.recovery_probe_in_flight
                && old_state.recovery_probe_id == attempt.recovery_probe_id;
            let state = after.peer_cooling@[peer];
            &&& aside && !own ==> after.peer_cooling@ == before.peer_cooling@
            &&& !aside || own ==> {
                &&& after.peer_cooling@.dom().contains(peer)
                &&& state.cooldown == if health == Some(PeerHealth::Dead) { config.on_dead(last) } else {
                    config.next(last)
                }
                &&& state.suppressed_until is Some && state.suppressed_until->0.nanos == now.nanos
                    + state.cooldown.nanos
                &&& !state.recovery_probe_in_flight
                &&& state.last_suppression_timeout_count == OUTBOUND_CRITICAL_QUEUE_PER_PEER
                &&& !after.eager_peers@.contains(peer)
            }
        }),
{
    let cooling = cooling_or_new(before.peer_cooling@, attempt.peer, now);
    crate::timing::cooldown_never_exceeds_max(config, cooling.cooldown);
}

/// What is said of a timeout: a suppression with its end, its count and its cooldown, and whether
/// the membership layer should look at the peer.
pub proof fn timeouts_are_told_as_they_are(
    state: TopicState,
    attempt: PeerSendAttempt,
    now: Instant,
    cooldown: Duration,
    count: usize,
    effect: TimeoutStep,
)
    requires
        now.can_advance(cooldown),
    ensures
        ({
            let told = state.outcome_of(
                attempt,
                now,
                TimeoutStep::Suppressed { cooldown, recent_timeout_count: count },
            );
            &&& told.suppression is Some && !told.request_indirect_probe
            &&& told.suppression->0.suppressed_until.nanos == now.nanos + cooldown.nanos
            &&& told.suppression->0.recent_timeout_count == count
            &&& told.suppression->0.cooldown == cooldown
            &&& told.suppression->0.demoted == state.eager_peers@.contains(attempt.peer)
        }),
        state.outcome_of(attempt, now, effect).request_indirect_probe <==> effect == TimeoutStep::HeldForProbe,
        state.outcome_of(attempt, now, effect).suppression is Some <==> effect is Suppressed,
{
}

/// A full queue counts against the peer: as a timeout where the send was an ordinary one, and as a
/// cooling event where it suppresses the peer.
pub proof fn full_queues_count_against_the_peer(
    before: TopicState,
    after: TopicState,
    attempt: PeerSendAttempt,
    now: Instant,
    effect: TimeoutStep,
    other: PeerId,
)
    requires
        after.after_overflow(&before, attempt, now, effect),
        before.peer_scores@.dom().contains(attempt.peer),
        before.peer_scores@[attempt.peer].outbound_send_timeouts.events < u64::MAX,
        before.peer_scores@[attempt.peer].cooling_events.events < u64::MAX,
    ensures
        ({
            let old_score = before.peer_scores@[attempt.peer];
            let score = after.peer_scores@[attempt.peer];
            let timed_out: int = if attempt.kind == SendAttemptKind::Normal { 1 } else { 0 };
            let cooled: int = if effect is Suppressed { 1 } else { 0 };
            &&& score.outbound_send_timeouts.events == old_score.outbound_send_timeouts.events + timed_out
            &&& score.cooling_events.events == old_score.cooling_events.events + cooled
            &&& cooled == 1 ==> score.cooling_events.updated_at == now
            &&& score.outbound_send_successes == old_score.outbound_send_successes
            &&& score.last_seen == old_score.last_seen
        }),
        other != attempt.peer ==> after.peer_scores@.dom().contains(other) == before.peer_scores@.dom().contains(other)
            && after.peer_scores@[other] == before.peer_scores@[other],
{
}

} // verus!
