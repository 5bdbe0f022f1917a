//! Counters of what the mesh has done, and the suppressions as they are reported.

use vstd::prelude::*;

use crate::collections::IdMap;
use crate::config::SUPPRESSION_CLEANUP_NORMAL_INTERVAL_MS;
use crate::ids::{Identifier, PeerId, TopicId};
use crate::message::MessageKind;
use crate::order::{ascending, in_order};
use crate::time::{elapsed_between, Duration, Instant, NANOS_PER_MILLI, NANOS_PER_SEC};

verus! {

/// A count as a `u64`, held at the largest.
pub open spec fn as_count(n: nat) -> u64 {
    if n <= u64::MAX { n as u64 } else { u64::MAX }
}

/// A span in whole milliseconds, held at the largest `u64`.
pub fn duration_millis_u64(duration: Duration) -> (r: u64)
    ensures
        r == as_count((duration.nanos / NANOS_PER_MILLI) as nat),
{
    let ms: u128 = duration.as_millis();
    if ms <= u64::MAX as u128 { ms as u64 } else { u64::MAX }
}

/// A span in nanoseconds, held at the largest `u64`.
pub fn duration_to_ns(duration: Duration) -> (r: u64)
    ensures
        r == as_count(duration.nanos as nat),
{
    if duration.nanos <= u64::MAX as u128 { duration.nanos as u64 } else { u64::MAX }
}

/// The time in milliseconds at which `remaining` is over, held at the largest `u64`.
pub fn unix_millis_after(unix_now_ms: u64, remaining: Duration) -> (r: u64)
    ensures
        r == as_count((unix_now_ms + as_count((remaining.nanos / NANOS_PER_MILLI) as nat)) as nat),
{
    unix_now_ms.saturating_add(duration_millis_u64(remaining))
}

/// A `usize` as a `u64`.
pub fn usize_to_u64(value: usize) -> (r: u64)
    ensures
        r == value,
{
    value as u64
}

/// Counts of received messages by their kind, and of changes of the tree. The counters start over
/// after the largest `u64`.
#[derive(Clone, Copy, Debug, PartialEq, Eq, Structural)]
pub struct PubSubMessageKindStats {
    pub eager: u64,
    pub ihave: u64,
    pub iwant: u64,
    pub anti_entropy: u64,
    pub other: u64,
    pub decode_failed: u64,
    pub prune: u64,
    pub graft: u64,
}

/// The counts at one moment.
#[derive(Clone, Copy, Debug, PartialEq, Eq, Structural)]
pub struct PubSubMessageKindStatsSnapshot {
    pub eager: u64,
    pub ihave: u64,
    pub iwant: u64,
    pub anti_entropy: u64,
    pub other: u64,
    pub decode_failed: u64,
    pub prune: u64,
    pub graft: u64,
}

impl PubSubMessageKindStats {
    /// Nothing has been counted.
    pub open spec fn blank() -> Self {
        PubSubMessageKindStats {
            eager: 0,
            ihave: 0,
            iwant: 0,
            anti_entropy: 0,
            other: 0,
            decode_failed: 0,
            prune: 0,
            graft: 0,
        }
    }

    pub open spec fn kind_counted(self, kind: MessageKind) -> Self {
        match kind {
            MessageKind::Eager => PubSubMessageKindStats { eager: self.eager.wrapping_add(1), ..self },
            MessageKind::IHave => PubSubMessageKindStats { ihave: self.ihave.wrapping_add(1), ..self },
            MessageKind::IWant => PubSubMessageKindStats { iwant: self.iwant.wrapping_add(1), ..self },
            MessageKind::AntiEntropy => PubSubMessageKindStats {
                anti_entropy: self.anti_entropy.wrapping_add(1),
                ..self
            },
            _ => PubSubMessageKindStats { other: self.other.wrapping_add(1), ..self },
        }
    }

    pub fn record_kind(&mut self, kind: MessageKind)
        ensures
            *final(self) == old(self).kind_counted(kind),
    {
        match kind {
            MessageKind::Eager => self.eager = self.eager.wrapping_add(1),
            MessageKind::IHave => self.ihave = self.ihave.wrapping_add(1),
            MessageKind::IWant => self.iwant = self.iwant.wrapping_add(1),
            MessageKind::AntiEntropy => self.anti_entropy = self.anti_entropy.wrapping_add(1),
            _ => self.other = self.other.wrapping_add(1),
        }
    }

    pub fn record_decode_failed(&mut self)
        ensures
            *final(self) == (PubSubMessageKindStats {
                decode_failed: old(self).decode_failed.wrapping_add(1),
                ..*old(self)
            }),
    {
        self.decode_failed = self.decode_failed.wrapping_add(1);
    }

    pub fn record_prune(&mut self)
        ensures
            *final(self) == (PubSubMessageKindStats { prune: old(self).prune.wrapping_add(1), ..*old(self) }),
    {
        self.prune = self.prune.wrapping_add(1);
    }

    pub fn record_prunes(&mut self, count: usize)
        ensures
            *final(self) == (PubSubMessageKindStats { prune: old(self).prune.wrapping_add(count as u64), ..*old(self) }),
    {
        self.prune = self.prune.wrapping_add(usize_to_u64(count));
    }

    pub fn record_grafts(&mut self, count: usize)
        ensures
            *final(self) == (PubSubMessageKindStats { graft: old(self).graft.wrapping_add(count as u64), ..*old(self) }),
    {
        self.graft = self.graft.wrapping_add(usize_to_u64(count));
    }

    pub fn snapshot(&self) -> (r: PubSubMessageKindStatsSnapshot)
        ensures
            r.eager == self.eager,
            r.ihave == self.ihave,
            r.iwant == self.iwant,
            r.anti_entropy == self.anti_entropy,
            r.other == self.other,
            r.decode_failed == self.decode_failed,
            r.prune == self.prune,
            r.graft == self.graft,
    {
        PubSubMessageKindStatsSnapshot {
            eager: self.eager,
            ihave: self.ihave,
            iwant: self.iwant,
            anti_entropy: self.anti_entropy,
            other: self.other,
            decode_failed: self.decode_failed,
            prune: self.prune,
            graft: self.graft,
        }
    }
}

impl Default for PubSubMessageKindStats {
    fn default() -> (r: Self)
        ensures
            r == Self::blank(),
    {
        PubSubMessageKindStats {
            eager: 0,
            ihave: 0,
            iwant: 0,
            anti_entropy: 0,
            other: 0,
            decode_failed: 0,
            prune: 0,
            graft: 0,
        }
    }
}

/// The time spent in one stage of handling a message.
#[derive(Clone, Copy, Debug, PartialEq, Eq, Structural)]
pub struct StageTimingStats {
    pub count: u64,
    pub total_ns: u64,
    pub max_ns: u64,
    pub over_1s_count: u64,
    pub over_5s_count: u64,
    pub over_30s_count: u64,
}

/// The time spent in one stage, at one moment.
#[derive(Clone, Copy, Debug, PartialEq, Eq, Structural)]
pub struct StageTimingStatsSnapshot {
    pub count: u64,
    pub total_ns: u64,
    pub max_ns: u64,
    pub over_1s_count: u64,
    pub over_5s_count: u64,
    pub over_30s_count: u64,
}

impl StageTimingStats {
    /// Nothing has been measured.
    pub open spec fn blank() -> Self {
        StageTimingStats {
            count: 0,
            total_ns: 0,
            max_ns: 0,
            over_1s_count: 0,
            over_5s_count: 0,
            over_30s_count: 0,
        }
    }

    pub open spec fn observed(self, duration: Duration) -> Self {
        let ns = as_count(duration.nanos as nat);
        StageTimingStats {
            count: self.count.wrapping_add(1),
            total_ns: self.total_ns.wrapping_add(ns),
            max_ns: if ns >= self.max_ns { ns } else { self.max_ns },
            over_1s_count: if duration.nanos >= NANOS_PER_SEC {
                self.over_1s_count.wrapping_add(1)
            } else {
                self.over_1s_count
            },
            over_5s_count: if duration.nanos >= 5 * NANOS_PER_SEC {
                self.over_5s_count.wrapping_add(1)
            } else {
                self.over_5s_count
            },
            over_30s_count: if duration.nanos >= 30 * NANOS_PER_SEC {
                self.over_30s_count.wrapping_add(1)
            } else {
                self.over_30s_count
            },
        }
    }

    pub fn record(&mut self, duration: Duration)
        ensures
            *final(self) == old(self).observed(duration),
    {
        let ns: u64 = duration_to_ns(duration);
        self.count = self.count.wrapping_add(1);
        self.total_ns = self.total_ns.wrapping_add(ns);
        if ns >= self.max_ns {
            self.max_ns = ns;
        }
        if duration.nanos >= Duration::from_secs(1).nanos {
            self.over_1s_count = self.over_1s_count.wrapping_add(1);
        }
        if duration.nanos >= Duration::from_secs(5).nanos {
            self.over_5s_count = self.over_5s_count.wrapping_add(1);
        }
        if duration.nanos >= Duration::from_secs(30).nanos {
            self.over_30s_count = self.over_30s_count.wrapping_add(1);
        }
    }

    pub fn snapshot(&self) -> (r: StageTimingStatsSnapshot)
        ensures
            r.count == self.count,
            r.total_ns == self.total_ns,
            r.max_ns == self.max_ns,
            r.over_1s_count == self.over_1s_count,
            r.over_5s_count == self.over_5s_count,
            r.over_30s_count == self.over_30s_count,
    {
        StageTimingStatsSnapshot {
            count: self.count,
            total_ns: self.total_ns,
            max_ns: self.max_ns,
            over_1s_count: self.over_1s_count,
            over_5s_count: self.over_5s_count,
            over_30s_count: self.over_30s_count,
        }
    }
}

impl Default for StageTimingStats {
    fn default() -> (r: Self)
        ensures
            r == Self::blank(),
    {
        StageTimingStats {
            count: 0,
            total_ns: 0,
            max_ns: 0,
            over_1s_count: 0,
            over_5s_count: 0,
            over_30s_count: 0,
        }
    }
}

/// No stage is slower than the slowest that was recorded.
pub proof fn slowest_stage_is_kept(stats: StageTimingStats, duration: Duration)
    ensures
        stats.observed(duration).max_ns >= stats.max_ns,
        stats.observed(duration).max_ns >= as_count(duration.nanos as nat),
{
}

/// A stage of handling a message.
#[derive(Clone, Copy, Debug, PartialEq, Eq, Structural)]
pub enum PubSubStage {
    Decode,
    Verify,
    DedupeLockAcquire,
    DedupeCheck,
    EagerFanout,
    Republish,
}

/// A peer on one topic.
#[derive(Clone, Copy, Debug, PartialEq, Eq, Hash)]
pub struct SuppressedPeerKey {
    pub topic: TopicId,
    pub peer: PeerId,
}

impl Identifier for SuppressedPeerKey {
    fn same(&self, other: &Self) -> (r: bool) {
        self.topic.same(&other.topic) && self.peer.same(&other.peer)
    }
}

/// A suppression as it is reported.
#[derive(Clone, Copy, Debug, PartialEq, Eq, Structural)]
pub struct SuppressedPeerState {
    pub suppressed_until: Instant,
    pub recent_timeout_count: usize,
    pub cooldown: Duration,
    pub last_suppressed_unix_ms: u64,
    pub recovery_probe_in_flight: bool,
}

/// Where a suppressed peer stands.
#[derive(Clone, Copy, Debug, PartialEq, Eq, Structural)]
pub enum SuppressionState {
    Cooldown,
    RecoveryReady,
    RecoveryProbe,
}

impl SuppressionState {
    pub open spec fn name(self) -> Seq<char> {
        match self {
            SuppressionState::Cooldown => "cooldown"@,
            SuppressionState::RecoveryReady => "recovery_ready"@,
            SuppressionState::RecoveryProbe => "recovery_probe"@,
        }
    }

    pub fn label(self) -> (r: &'static str)
        ensures
            r@ == self.name(),
    {
        match self {
            SuppressionState::Cooldown => "cooldown",
            SuppressionState::RecoveryReady => "recovery_ready",
            SuppressionState::RecoveryProbe => "recovery_probe",
        }
    }
}

/// A suppression at one moment.
#[derive(Clone, Copy, Debug, PartialEq, Eq)]
pub struct SuppressedPeerSnapshot {
    pub peer_id: PeerId,
    pub topic: TopicId,
    pub suppressed_until_unix_ms: u64,
    pub suppressed_for_ms: u64,
    pub recent_timeout_count: usize,
    /// Topics on which the peer is suppressed.
    pub affected_topics_count: usize,
    pub cooldown_ms: u64,
    pub last_suppressed_unix_ms: u64,
    pub state: SuppressionState,
    pub recovery_probe_in_flight: bool,
}

/// The last cleanup of expired suppressions.
#[derive(Clone, Copy, Debug, PartialEq, Eq, Structural)]
pub struct SuppressionCleanupStats {
    pub current_interval_ms: u64,
    /// The growth of the suppressions per second, as the bits of a binary fraction.
    pub growth_rate_bits: u64,
    pub current_entries: u64,
    pub last_removed: u64,
}

/// Everything that is counted.
pub struct PubSubStageStats {
    pub message_kinds: PubSubMessageKindStats,
    pub decode: StageTimingStats,
    pub verify: StageTimingStats,
    pub dedupe_lock_acquire: StageTimingStats,
    pub dedupe_check: StageTimingStats,
    pub eager_fanout: StageTimingStats,
    pub republish: StageTimingStats,
    /// Sends that timed out.
    pub republish_per_peer_timeout: u64,
    /// Sends that were not made for want of a permit.
    pub outbound_budget_exhausted: u64,
    /// Sends to a peer during its cooldown.
    pub cooldown_bypass_probes: u64,
    pub cooldown_bypass_successes: u64,
    pub suppressed_peers: IdMap<SuppressedPeerKey, SuppressedPeerState>,
    pub suppression_cleanup: SuppressionCleanupStats,
}

/// The suppression of a peer in some state.
pub open spec fn state_at(state: SuppressedPeerState, now: Instant) -> SuppressionState {
    if state.recovery_probe_in_flight {
        SuppressionState::RecoveryProbe
    } else if state.suppressed_until.nanos > now.nanos {
        SuppressionState::Cooldown
    } else {
        SuppressionState::RecoveryReady
    }
}

/// The topics on which a peer is suppressed.
pub open spec fn topics_of(suppressed: Map<SuppressedPeerKey, SuppressedPeerState>, peer: PeerId) -> Set<
    SuppressedPeerKey,
> {
    suppressed.dom().filter(|k: SuppressedPeerKey| k.peer == peer)
}

/// What is reported of one suppression.
pub open spec fn snapshot_of(
    suppressed: Map<SuppressedPeerKey, SuppressedPeerState>,
    key: SuppressedPeerKey,
    now: Instant,
    unix_now_ms: u64,
    snapshot: SuppressedPeerSnapshot,
) -> bool {
    let state = suppressed[key];
    let remaining_ms = as_count(elapsed_between(state.suppressed_until, now) / (NANOS_PER_MILLI as nat));
    &&& suppressed.dom().contains(key)
    &&& snapshot.peer_id == key.peer
    &&& snapshot.topic == key.topic
    &&& snapshot.suppressed_until_unix_ms == as_count((unix_now_ms + remaining_ms) as nat)
    &&& snapshot.suppressed_for_ms == remaining_ms
    &&& snapshot.recent_timeout_count == state.recent_timeout_count
    &&& snapshot.affected_topics_count == topics_of(suppressed, key.peer).len()
    &&& snapshot.cooldown_ms == as_count((state.cooldown.nanos / NANOS_PER_MILLI) as nat)
    &&& snapshot.last_suppressed_unix_ms == state.last_suppressed_unix_ms
    &&& snapshot.state == state_at(state, now)
    &&& snapshot.recovery_probe_in_flight == state.recovery_probe_in_flight
}

/// A suppression is ordered by its peer, then by its topic.
pub open spec fn snapshot_key(snapshot: SuppressedPeerSnapshot) -> ([u8; 32], [u8; 32]) {
    (snapshot.peer_id.bytes, snapshot.topic.bytes)
}

impl PubSubStageStats {
    pub open spec fn wf(&self) -> bool {
        self.suppressed_peers.wf()
    }

    /// Nothing but the reported suppressions has changed.
    pub open spec fn only_suppressions_changed(&self, before: &Self) -> bool {
        &&& self.message_kinds == before.message_kinds
        &&& self.same_timings(before)
        &&& self.republish_per_peer_timeout == before.republish_per_peer_timeout
        &&& self.outbound_budget_exhausted == before.outbound_budget_exhausted
        &&& self.cooldown_bypass_probes == before.cooldown_bypass_probes
        &&& self.cooldown_bypass_successes == before.cooldown_bypass_successes
        &&& self.suppression_cleanup == before.suppression_cleanup
    }

    pub open spec fn same_timings(&self, before: &Self) -> bool {
        &&& self.decode == before.decode
        &&& self.verify == before.verify
        &&& self.dedupe_lock_acquire == before.dedupe_lock_acquire
        &&& self.dedupe_check == before.dedupe_check
        &&& self.eager_fanout == before.eager_fanout
        &&& self.republish == before.republish
    }

    pub open spec fn timed(self, stage: PubSubStage, duration: Duration) -> Self {
        match stage {
            PubSubStage::Decode => PubSubStageStats { decode: self.decode.observed(duration), ..self },
            PubSubStage::Verify => PubSubStageStats { verify: self.verify.observed(duration), ..self },
            PubSubStage::DedupeLockAcquire => PubSubStageStats {
                dedupe_lock_acquire: self.dedupe_lock_acquire.observed(duration),
                ..self
            },
            PubSubStage::DedupeCheck => PubSubStageStats { dedupe_check: self.dedupe_check.observed(duration), ..self },
            PubSubStage::EagerFanout => PubSubStageStats { eager_fanout: self.eager_fanout.observed(duration), ..self },
            PubSubStage::Republish => PubSubStageStats { republish: self.republish.observed(duration), ..self },
        }
    }

    pub fn record(&mut self, stage: PubSubStage, duration: Duration)
        ensures
            *final(self) == old(self).timed(stage, duration),
    {
        match stage {
            PubSubStage::Decode => self.decode.record(duration),
            PubSubStage::Verify => self.verify.record(duration),
            PubSubStage::DedupeLockAcquire => self.dedupe_lock_acquire.record(duration),
            PubSubStage::DedupeCheck => self.dedupe_check.record(duration),
            PubSubStage::EagerFanout => self.eager_fanout.record(duration),
            PubSubStage::Republish => self.republish.record(duration),
        }
    }

    pub fn record_per_peer_timeout(&mut self)
        ensures
            *final(self) == (PubSubStageStats {
                republish_per_peer_timeout: old(self).republish_per_peer_timeout.wrapping_add(1),
                ..*old(self)
            }),
    {
        self.republish_per_peer_timeout = self.republish_per_peer_timeout.wrapping_add(1);
    }

    pub fn record_outbound_budget_exhausted(&mut self)
        ensures
            *final(self) == (PubSubStageStats {
                outbound_budget_exhausted: old(self).outbound_budget_exhausted.wrapping_add(1),
                ..*old(self)
            }),
    {
        self.outbound_budget_exhausted = self.outbound_budget_exhausted.wrapping_add(1);
    }

    pub fn record_cooldown_bypass_probe(&mut self)
        ensures
            *final(self) == (PubSubStageStats {
                cooldown_bypass_probes: old(self).cooldown_bypass_probes.wrapping_add(1),
                ..*old(self)
            }),
    {
        self.cooldown_bypass_probes = self.cooldown_bypass_probes.wrapping_add(1);
    }

    pub fn record_cooldown_bypass_success(&mut self)
        ensures
            *final(self) == (PubSubStageStats {
                cooldown_bypass_successes: old(self).cooldown_bypass_successes.wrapping_add(1),
                ..*old(self)
            }),
    {
        self.cooldown_bypass_successes = self.cooldown_bypass_successes.wrapping_add(1);
    }

    pub fn record_suppression_cleanup(
        &mut self,
        interval: Duration,
        growth_rate_bits: u64,
        current_entries: usize,
        removed: usize,
    )
        ensures
            *final(self) == (PubSubStageStats {
                suppression_cleanup: SuppressionCleanupStats {
                    current_interval_ms: as_count((interval.nanos / NANOS_PER_MILLI) as nat),
                    growth_rate_bits,
                    current_entries: current_entries as u64,
                    last_removed: removed as u64,
                },
                ..*old(self)
            }),
    {
        self.suppression_cleanup =
        SuppressionCleanupStats {
            current_interval_ms: duration_millis_u64(interval),
            growth_rate_bits,
            current_entries: usize_to_u64(current_entries),
            last_removed: usize_to_u64(removed),
        };
    }

    /// A peer was suppressed on a topic.
    pub fn record_peer_suppressed(
        &mut self,
        topic: TopicId,
        peer: PeerId,
        suppressed_until: Instant,
        recent_timeout_count: usize,
        cooldown: Duration,
        unix_now_ms: u64,
    )
        requires
            old(self).wf(),
        ensures
            final(self).wf(),
            final(self).suppressed_peers@ == old(self).suppressed_peers@.insert(
                (SuppressedPeerKey { topic, peer }),
                (SuppressedPeerState {
                    suppressed_until,
                    recent_timeout_count,
                    cooldown,
                    last_suppressed_unix_ms: unix_now_ms,
                    recovery_probe_in_flight: false,
                }),
            ),
            final(self).only_suppressions_changed(old(self)),
    {
        self.suppressed_peers.insert(
            SuppressedPeerKey { topic, peer },
            SuppressedPeerState {
                suppressed_until,
                recent_timeout_count,
                cooldown,
                last_suppressed_unix_ms: unix_now_ms,
                recovery_probe_in_flight: false,
            },
        );
    }

    /// A recovery probe of a peer has started on a topic.
    pub fn record_peer_recovery_probe(
        &mut self,
        topic: TopicId,
        peer: PeerId,
        suppressed_until: Instant,
        recent_timeout_count: usize,
        cooldown: Duration,
        unix_now_ms: u64,
    )
        requires
            old(self).wf(),
        ensures
            final(self).wf(),
            final(self).suppressed_peers@ == old(self).suppressed_peers@.insert(
                (SuppressedPeerKey { topic, peer }),
                (SuppressedPeerState {
                    suppressed_until,
                    recent_timeout_count,
                    cooldown,
                    last_suppressed_unix_ms: unix_now_ms,
                    recovery_probe_in_flight: true,
                }),
            ),
            final(self).only_suppressions_changed(old(self)),
    {
        self.suppressed_peers.insert(
            SuppressedPeerKey { topic, peer },
            SuppressedPeerState {
                suppressed_until,
                recent_timeout_count,
                cooldown,
                last_suppressed_unix_ms: unix_now_ms,
                recovery_probe_in_flight: true,
            },
        );
    }

    /// A peer is no longer suppressed on a topic; says whether it was reported as such.
    pub fn clear_peer_suppression(&mut self, topic: TopicId, peer: PeerId) -> (r: bool)
        requires
            old(self).wf(),
        ensures
            final(self).wf(),
            r == old(self).suppressed_peers@.dom().contains(SuppressedPeerKey { topic, peer }),
            final(self).suppressed_peers@ == old(self).suppressed_peers@.remove(SuppressedPeerKey { topic, peer }),
            final(self).only_suppressions_changed(old(self)),
    {
        self.suppressed_peers.remove(&SuppressedPeerKey { topic, peer }).is_some()
    }

    /// No peer is suppressed on a topic any longer.
    pub fn clear_topic_suppressions(&mut self, topic: TopicId)
        requires
            old(self).wf(),
        ensures
            final(self).wf(),
            final(self).suppressed_peers@ == old(self).suppressed_peers@.restrict(
                Set::new(|k: SuppressedPeerKey| k.topic != topic),
            ),
            final(self).only_suppressions_changed(old(self)),
    {
        let keys: Vec<SuppressedPeerKey> = self.suppressed_peers.keys();
        let ghost all = self.suppressed_peers@;
        let mut i: usize = 0;
        while i < keys.len()
            invariant
                i <= keys@.len(),
                keys@.no_duplicates(),
                keys@.to_set() == all.dom(),
                self.wf(),
                self.only_suppressions_changed(old(self)),
                forall|k: SuppressedPeerKey| #[trigger] self.suppressed_peers@.dom().contains(k) ==> all.dom().contains(k)
                    && self.suppressed_peers@[k] == all[k],
                forall|j: int|
                    0 <= j < i ==> self.suppressed_peers@.dom().contains(#[trigger] keys@[j]) == (keys@[j].topic != topic),
                forall|j: int| i <= j < keys@.len() ==> self.suppressed_peers@.dom().contains(#[trigger] keys@[j]),
            decreases keys@.len() - i,
        {
            assert(keys@.to_set().contains(keys@[i as int]));
            let key = keys[i];
            if key.topic.same(&topic) {
                self.suppressed_peers.remove(&key);
            }
            i = i + 1;
        }
        proof {
            assert forall|k: SuppressedPeerKey| all.dom().contains(k) implies #[trigger] self.suppressed_peers@.dom().contains(
                k,
            ) == (k.topic != topic) by {
                assert(keys@.to_set().contains(k));
                assert(keys@[keys@.index_of(k)] == k);
            }
            assert(self.suppressed_peers@ =~= all.restrict(Set::new(|k: SuppressedPeerKey| k.topic != topic)));
        }
    }

    pub fn suppressed_peer_count(&self) -> (r: usize)
        requires
            self.wf(),
        ensures
            r == self.suppressed_peers@.dom().len(),
    {
        self.suppressed_peers.len()
    }

    fn affected_topics(&self, peer: PeerId) -> (r: usize)
        requires
            self.wf(),
        ensures
            r == topics_of(self.suppressed_peers@, peer).len(),
    {
        let keys: Vec<SuppressedPeerKey> = self.suppressed_peers.keys();
        let ghost mut found: Set<SuppressedPeerKey> = Set::empty();
        let mut count: usize = 0;
        let mut i: usize = 0;
        while i < keys.len()
            invariant
                i <= keys@.len(),
                keys@.no_duplicates(),
                count <= i,
                found.finite(),
                found.len() == count,
                forall|k: SuppressedPeerKey| #[trigger] found.contains(k) <==> keys@.take(i as int).contains(k)
                    && k.peer == peer,
            decreases keys@.len() - i,
        {
            let key = keys[i];
            proof {
                let before = keys@.take(i as int);
                let after = keys@.take(i + 1);
                assert(after =~= before.push(key));
                assert forall|k: SuppressedPeerKey| #[trigger] after.contains(k) <==> before.contains(k) || k == key by {
                    if before.contains(k) {
                        assert(after[before.index_of(k)] == k);
                    }
                    if after.contains(k) && k != key {
                        assert(before[after.index_of(k)] == k);
                    }
                    assert(after[i as int] == key);
                }
                assert(!before.contains(key));
            }
            if key.peer.same(&peer) {
                count = count + 1;
                proof {
                    found = found.insert(key);
                }
            }
            i = i + 1;
        }
        proof {
            assert(keys@.take(keys@.len() as int) =~= keys@);
            assert forall|k: SuppressedPeerKey| found.contains(k) == topics_of(self.suppressed_peers@, peer).contains(k) by {
                assert(keys@.to_set().contains(k) == keys@.contains(k));
            }
            assert(found =~= topics_of(self.suppressed_peers@, peer));
        }
        count
    }

    /// The suppressions, ordered by peer and then by topic.
    pub fn suppressed_peer_snapshots(&self, now: Instant, unix_now_ms: u64) -> (r: Vec<SuppressedPeerSnapshot>)
        requires
            self.wf(),
        ensures
            r@.len() == self.suppressed_peers@.dom().len(),
            ascending(r@.map_values(|s: SuppressedPeerSnapshot| snapshot_key(s))),
            forall|i: int|
                0 <= i < r@.len() ==> snapshot_of(
                    self.suppressed_peers@,
                    (SuppressedPeerKey { topic: (#[trigger] r@[i]).topic, peer: r@[i].peer_id }),
                    now,
                    unix_now_ms,
                    r@[i],
                ),
    {
        let keys: Vec<SuppressedPeerKey> = self.suppressed_peers.keys();
        let mut pairs: Vec<([u8; 32], [u8; 32])> = Vec::new();
        let mut i: usize = 0;
        while i < keys.len()
            invariant
                i <= keys@.len(),
                pairs@.len() == i,
                forall|j: int| 0 <= j < i ==> #[trigger] pairs@[j] == (keys@[j].peer.bytes, keys@[j].topic.bytes),
            decreases keys@.len() - i,
        {
            pairs.push((keys[i].peer.bytes, keys[i].topic.bytes));
            i = i + 1;
        }
        proof {
            assert forall|a: int, b: int| 0 <= a < b < pairs@.len() implies pairs@[a] != pairs@[b] by {
                if pairs@[a] == pairs@[b] {
                    assert(keys@[a] == keys@[b]);
                }
            }
        }
        let ordered = in_order(&pairs);
        let mut r: Vec<SuppressedPeerSnapshot> = Vec::new();
        let mut n: usize = 0;
        while n < ordered.len()
            invariant
                n <= ordered@.len(),
                self.wf(),
                ordered@.to_set() == pairs@.to_set(),
                pairs@.len() == keys@.len(),
                keys@.to_set() == self.suppressed_peers@.dom(),
                forall|j: int| 0 <= j < keys@.len() ==> #[trigger] pairs@[j] == (
                    keys@[j].peer.bytes,
                    keys@[j].topic.bytes,
                ),
                r@.len() == n,
                forall|j: int| 0 <= j < n ==> snapshot_key(#[trigger] r@[j]) == ordered@[j],
                forall|j: int|
                    0 <= j < n ==> snapshot_of(
                        self.suppressed_peers@,
                        (SuppressedPeerKey { topic: (#[trigger] r@[j]).topic, peer: r@[j].peer_id }),
                        now,
                        unix_now_ms,
                        r@[j],
                    ),
            decreases ordered@.len() - n,
        {
            let pair = ordered[n];
            let key = SuppressedPeerKey { topic: TopicId { bytes: pair.1 }, peer: PeerId { bytes: pair.0 } };
            proof {
                assert(ordered@.to_set().contains(pair));
                assert(pairs@.contains(pair));
                let j = pairs@.index_of(pair);
                assert(keys@[j] == key);
                assert(keys@.to_set().contains(key));
            }
            if let Some(found) = self.suppressed_peers.get(&key) {
                let state: SuppressedPeerState = *found;
                let remaining = state.suppressed_until.saturating_duration_since(now);
                let stage = if state.recovery_probe_in_flight {
                    SuppressionState::RecoveryProbe
                } else if state.suppressed_until.nanos > now.nanos {
                    SuppressionState::Cooldown
                } else {
                    SuppressionState::RecoveryReady
                };
                r.push(
                    SuppressedPeerSnapshot {
                        peer_id: key.peer,
                        topic: key.topic,
                        suppressed_until_unix_ms: unix_millis_after(unix_now_ms, remaining),
                        suppressed_for_ms: duration_millis_u64(remaining),
                        recent_timeout_count: state.recent_timeout_count,
                        affected_topics_count: self.affected_topics(key.peer),
                        cooldown_ms: duration_millis_u64(state.cooldown),
                        last_suppressed_unix_ms: state.last_suppressed_unix_ms,
                        state: stage,
                        recovery_probe_in_flight: state.recovery_probe_in_flight,
                    },
                );
            }
            n = n + 1;
        }
        assert(r@.map_values(|s: SuppressedPeerSnapshot| snapshot_key(s)) =~= ordered@);
        r
    }
}

/// Everything that is counted, at one moment.
pub struct PubSubStageStatsSnapshot {
    pub message_kinds: PubSubMessageKindStatsSnapshot,
    pub decode: StageTimingStatsSnapshot,
    pub verify: StageTimingStatsSnapshot,
    pub dedupe_lock_acquire: StageTimingStatsSnapshot,
    pub dedupe_check: StageTimingStatsSnapshot,
    pub eager_fanout: StageTimingStatsSnapshot,
    pub republish: StageTimingStatsSnapshot,
    pub republish_per_peer_timeout: u64,
    pub outbound_budget_exhausted: u64,
    pub cooldown_bypass_probes: u64,
    pub cooldown_bypass_successes: u64,
    pub suppressed_peers: Vec<SuppressedPeerSnapshot>,
    pub suppression_cleanup: SuppressionCleanupStats,
}

/// A stage's numbers at one moment.
pub open spec fn timing_of(stats: StageTimingStats) -> StageTimingStatsSnapshot {
    StageTimingStatsSnapshot {
        count: stats.count,
        total_ns: stats.total_ns,
        max_ns: stats.max_ns,
        over_1s_count: stats.over_1s_count,
        over_5s_count: stats.over_5s_count,
        over_30s_count: stats.over_30s_count,
    }
}

impl PubSubStageStats {
    /// Everything that is counted, at this moment.
    pub fn snapshot(&self, now: Instant, unix_now_ms: u64) -> (r: PubSubStageStatsSnapshot)
        requires
            self.wf(),
        ensures
            r.message_kinds == (PubSubMessageKindStatsSnapshot {
                eager: self.message_kinds.eager,
                ihave: self.message_kinds.ihave,
                iwant: self.message_kinds.iwant,
                anti_entropy: self.message_kinds.anti_entropy,
                other: self.message_kinds.other,
                decode_failed: self.message_kinds.decode_failed,
                prune: self.message_kinds.prune,
                graft: self.message_kinds.graft,
            }),
            r.decode == timing_of(self.decode),
            r.verify == timing_of(self.verify),
            r.dedupe_lock_acquire == timing_of(self.dedupe_lock_acquire),
            r.dedupe_check == timing_of(self.dedupe_check),
            r.eager_fanout == timing_of(self.eager_fanout),
            r.republish == timing_of(self.republish),
            r.republish_per_peer_timeout == self.republish_per_peer_timeout,
            r.outbound_budget_exhausted == self.outbound_budget_exhausted,
            r.cooldown_bypass_probes == self.cooldown_bypass_probes,
            r.cooldown_bypass_successes == self.cooldown_bypass_successes,
            r.suppression_cleanup == self.suppression_cleanup,
            r.suppressed_peers@.len() == self.suppressed_peers@.dom().len(),
            ascending(r.suppressed_peers@.map_values(|s: SuppressedPeerSnapshot| snapshot_key(s))),
            forall|i: int|
                0 <= i < r.suppressed_peers@.len() ==> snapshot_of(
                    self.suppressed_peers@,
                    (SuppressedPeerKey {
                        topic: (#[trigger] r.suppressed_peers@[i]).topic,
                        peer: r.suppressed_peers@[i].peer_id,
                    }),
                    now,
                    unix_now_ms,
                    r.suppressed_peers@[i],
                ),
    {
        PubSubStageStatsSnapshot {
            message_kinds: self.message_kinds.snapshot(),
            decode: self.decode.snapshot(),
            verify: self.verify.snapshot(),
            dedupe_lock_acquire: self.dedupe_lock_acquire.snapshot(),
            dedupe_check: self.dedupe_check.snapshot(),
            eager_fanout: self.eager_fanout.snapshot(),
            republish: self.republish.snapshot(),
            republish_per_peer_timeout: self.republish_per_peer_timeout,
            outbound_budget_exhausted: self.outbound_budget_exhausted,
            cooldown_bypass_probes: self.cooldown_bypass_probes,
            cooldown_bypass_successes: self.cooldown_bypass_successes,
            suppressed_peers: self.suppressed_peer_snapshots(now, unix_now_ms),
            suppression_cleanup: self.suppression_cleanup,
        }
    }
}

impl Default for PubSubStageStats {
    fn default() -> (r: Self)
        ensures
            r.wf(),
            r.message_kinds == PubSubMessageKindStats::blank(),
            r.decode == StageTimingStats::blank() && r.verify == StageTimingStats::blank(),
            r.dedupe_lock_acquire == StageTimingStats::blank() && r.dedupe_check == StageTimingStats::blank(),
            r.eager_fanout == StageTimingStats::blank() && r.republish == StageTimingStats::blank(),
            r.suppressed_peers@ == Map::<SuppressedPeerKey, SuppressedPeerState>::empty(),
            r.republish_per_peer_timeout == 0 && r.outbound_budget_exhausted == 0,
            r.cooldown_bypass_probes == 0 && r.cooldown_bypass_successes == 0,
            r.suppression_cleanup == (SuppressionCleanupStats {
                current_interval_ms: SUPPRESSION_CLEANUP_NORMAL_INTERVAL_MS,
                growth_rate_bits: 0,
                current_entries: 0,
                last_removed: 0,
            }),
    {
        PubSubStageStats {
            message_kinds: PubSubMessageKindStats::default(),
            decode: StageTimingStats::default(),
            verify: StageTimingStats::default(),
            dedupe_lock_acquire: StageTimingStats::default(),
            dedupe_check: StageTimingStats::default(),
            eager_fanout: StageTimingStats::default(),
            republish: StageTimingStats::default(),
            republish_per_peer_timeout: 0,
            outbound_budget_exhausted: 0,
            cooldown_bypass_probes: 0,
            cooldown_bypass_successes: 0,
            suppressed_peers: IdMap::new(),
            suppression_cleanup: SuppressionCleanupStats {
                current_interval_ms: SUPPRESSION_CLEANUP_NORMAL_INTERVAL_MS,
                growth_rate_bits: 0,
                current_entries: 0,
                last_removed: 0,
            },
        }
    }
}

/// Every message counts once, under its kind.
pub proof fn kinds_are_counted_apart(stats: PubSubMessageKindStats, kind: MessageKind)
    ensures
        ({
            let after = stats.kind_counted(kind);
            let other = kind != MessageKind::Eager && kind != MessageKind::IHave && kind != MessageKind::IWant && kind
                != MessageKind::AntiEntropy;
            &&& after.eager == if kind == MessageKind::Eager { stats.eager.wrapping_add(1) } else { stats.eager }
            &&& after.ihave == if kind == MessageKind::IHave { stats.ihave.wrapping_add(1) } else { stats.ihave }
            &&& after.iwant == if kind == MessageKind::IWant { stats.iwant.wrapping_add(1) } else { stats.iwant }
            &&& after.anti_entropy == if kind == MessageKind::AntiEntropy {
                stats.anti_entropy.wrapping_add(1)
            } else {
                stats.anti_entropy
            }
            &&& after.other == if other { stats.other.wrapping_add(1) } else { stats.other }
            &&& after.decode_failed == stats.decode_failed && after.prune == stats.prune && after.graft == stats.graft
        }),
{
}

/// What a stage that took some time does to its numbers.
pub proof fn stages_are_measured(stats: StageTimingStats, duration: Duration)
    requires
        duration.nanos <= u64::MAX,
        stats.count < u64::MAX,
        stats.total_ns + duration.nanos <= u64::MAX,
        stats.over_1s_count < u64::MAX && stats.over_5s_count < u64::MAX && stats.over_30s_count < u64::MAX,
    ensures
        ({
            let after = stats.observed(duration);
            let secs = duration.nanos / NANOS_PER_SEC;
            &&& after.count == stats.count + 1
            &&& after.total_ns == stats.total_ns + duration.nanos
            &&& after.max_ns == if duration.nanos > stats.max_ns { duration.nanos as u64 } else { stats.max_ns }
            &&& after.over_1s_count == stats.over_1s_count + (if secs >= 1 { 1int } else { 0 })
            &&& after.over_5s_count == stats.over_5s_count + (if secs >= 5 { 1int } else { 0 })
            &&& after.over_30s_count == stats.over_30s_count + (if secs >= 30 { 1int } else { 0 })
        }),
{
}

/// A time counts for its stage, and for no other.
pub proof fn stages_are_measured_apart(stats: PubSubStageStats, stage: PubSubStage, duration: Duration)
    ensures
        ({
            let after = stats.timed(stage, duration);
            &&& after.decode == if stage == PubSubStage::Decode { stats.decode.observed(duration) } else { stats.decode }
            &&& after.verify == if stage == PubSubStage::Verify { stats.verify.observed(duration) } else { stats.verify }
            &&& after.dedupe_lock_acquire == if stage == PubSubStage::DedupeLockAcquire {
                stats.dedupe_lock_acquire.observed(duration)
            } else {
                stats.dedupe_lock_acquire
            }
            &&& after.dedupe_check == if stage == PubSubStage::DedupeCheck {
                stats.dedupe_check.observed(duration)
            } else {
                stats.dedupe_check
            }
            &&& after.eager_fanout == if stage == PubSubStage::EagerFanout {
                stats.eager_fanout.observed(duration)
            } else {
                stats.eager_fanout
            }
            &&& after.republish == if stage == PubSubStage::Republish {
                stats.republish.observed(duration)
            } else {
                stats.republish
            }
            &&& after.message_kinds == stats.message_kinds && after.suppressed_peers == stats.suppressed_peers
        }),
{
}

/// What is reported of a suppression in numbers: how long it still lasts and until when, and whether
/// it runs, is over or is being probed.
pub proof fn reports_tell_the_time_that_is_left(
    suppressed: Map<SuppressedPeerKey, SuppressedPeerState>,
    key: SuppressedPeerKey,
    now: Instant,
    unix_now_ms: u64,
    row: SuppressedPeerSnapshot,
)
    requires
        snapshot_of(suppressed, key, now, unix_now_ms, row),
        suppressed[key].suppressed_until.nanos / NANOS_PER_MILLI + unix_now_ms <= u64::MAX,
        suppressed[key].cooldown.nanos / NANOS_PER_MILLI <= u64::MAX,
    ensures
        ({
            let state = suppressed[key];
            let until = state.suppressed_until.nanos;
            &&& suppressed.dom().contains(key)
            &&& row.peer_id == key.peer && row.topic == key.topic
            &&& until > now.nanos ==> row.suppressed_for_ms == (until - now.nanos) / NANOS_PER_MILLI as int
            &&& until <= now.nanos ==> row.suppressed_for_ms == 0
            &&& row.suppressed_until_unix_ms == unix_now_ms + row.suppressed_for_ms
            &&& row.cooldown_ms == state.cooldown.nanos / NANOS_PER_MILLI
            &&& row.recent_timeout_count == state.recent_timeout_count
            &&& row.last_suppressed_unix_ms == state.last_suppressed_unix_ms
            &&& row.recovery_probe_in_flight == state.recovery_probe_in_flight
            &&& row.state == SuppressionState::RecoveryProbe <==> state.recovery_probe_in_flight
            &&& row.state == SuppressionState::Cooldown <==> !state.recovery_probe_in_flight && until > now.nanos
            &&& row.state == SuppressionState::RecoveryReady <==> !state.recovery_probe_in_flight && until <= now.nanos
            &&& row.affected_topics_count == suppressed.dom().filter(|k: SuppressedPeerKey| k.peer == key.peer).len()
        }),
{
    assert(suppressed.dom().filter(|k: SuppressedPeerKey| k.peer == key.peer) =~= topics_of(suppressed, key.peer));
}

/// Every suppression is reported, once.
pub proof fn every_suppression_is_reported(
    suppressed: Map<SuppressedPeerKey, SuppressedPeerState>,
    rows: Seq<SuppressedPeerSnapshot>,
    now: Instant,
    unix_now_ms: u64,
    key: SuppressedPeerKey,
)
    requires
        suppressed.dom().finite(),
        rows.len() == suppressed.dom().len(),
        ascending(rows.map_values(|s: SuppressedPeerSnapshot| snapshot_key(s))),
        forall|i: int|
            0 <= i < rows.len() ==> snapshot_of(
                suppressed,
                (SuppressedPeerKey { topic: (#[trigger] rows[i]).topic, peer: rows[i].peer_id }),
                now,
                unix_now_ms,
                rows[i],
            ),
        suppressed.dom().contains(key),
    ensures
        exists|i: int| 0 <= i < rows.len() && (#[trigger] rows[i]).topic == key.topic && rows[i].peer_id == key.peer,
{
    let keys = rows.map_values(|s: SuppressedPeerSnapshot| SuppressedPeerKey { topic: s.topic, peer: s.peer_id });
    let order = rows.map_values(|s: SuppressedPeerSnapshot| snapshot_key(s));
    assert(keys.no_duplicates()) by {
        assert forall|i: int, j: int| 0 <= i < j < keys.len() implies keys[i] != keys[j] by {
            assert(crate::order::pair_before(order[i], order[j]));
            crate::order::pair_before_is_total(order[i], order[j]);
        }
    }
    keys.unique_seq_to_set();
    assert(keys.to_set().subset_of(suppressed.dom())) by {
        assert forall|k: SuppressedPeerKey| keys.to_set().contains(k) implies suppressed.dom().contains(k) by {
            let i = keys.index_of(k);
            assert(rows[i].topic == k.topic);
        }
    }
    vstd::set_lib::lemma_subset_equality(keys.to_set(), suppressed.dom());
    assert(keys.to_set().contains(key));
    let i = keys.index_of(key);
    assert(rows[i].topic == key.topic);
}

/// Numbers are kept as they are while they fit, and a report takes them over one by one.
pub proof fn numbers_are_taken_over(n: nat, stats: StageTimingStats)
    ensures
        n <= u64::MAX ==> as_count(n) == n,
        n > u64::MAX ==> as_count(n) == u64::MAX,
        timing_of(stats).count == stats.count && timing_of(stats).total_ns == stats.total_ns,
        timing_of(stats).max_ns == stats.max_ns && timing_of(stats).over_1s_count == stats.over_1s_count,
        timing_of(stats).over_5s_count == stats.over_5s_count && timing_of(stats).over_30s_count
            == stats.over_30s_count,
{
}

/// Reports stand in the order of their peers, and those of one peer in the order of their topics.
pub proof fn reports_stand_by_peer_and_topic(rows: Seq<SuppressedPeerSnapshot>, i: int, j: int)
    requires
        ascending(rows.map_values(|s: SuppressedPeerSnapshot| snapshot_key(s))),
        0 <= i < j < rows.len(),
    ensures
        crate::order::bytes_before(rows[i].peer_id.bytes, rows[j].peer_id.bytes) || (rows[i].peer_id.bytes
            == rows[j].peer_id.bytes && crate::order::bytes_before(rows[i].topic.bytes, rows[j].topic.bytes)),
{
    let order = rows.map_values(|s: SuppressedPeerSnapshot| snapshot_key(s));
    assert(order[i] == snapshot_key(rows[i]) && order[j] == snapshot_key(rows[j]));
}

} // verus!
