//! Send timeouts and cooldowns that follow what was observed of a peer.

use vstd::arithmetic::power::pow;
use vstd::prelude::*;

use crate::collections::IdMap;
use crate::ids::PeerId;
use crate::time::{max_span, min_span, Duration, NANOS_PER_MILLI, NANOS_PER_SEC};

verus! {

/// First cooldown of a peer.
pub const ADAPTIVE_COOLDOWN_INITIAL_SECS: u64 = 30;

/// Longest cooldown of a peer.
pub const ADAPTIVE_COOLDOWN_MAX_SECS: u64 = 300;

/// Shortest adaptive send timeout.
pub const PER_PEER_TIMEOUT_FLOOR_MS: u64 = 1_500;

/// Longest adaptive send timeout.
pub const PER_PEER_TIMEOUT_CEILING_MS: u64 = 10_000;

/// The adaptive timeout in halves of the observed tail: two and a half times of it.
pub const PER_PEER_TIMEOUT_MULTIPLIER_HALVES: u64 = 5;

/// Samples kept of one peer.
pub const PER_PEER_RTT_SAMPLE_CAP: usize = 32;

/// The cooldown after a suppression: how it starts, grows and ends.
#[derive(Clone, Copy, Debug, PartialEq, Eq, Structural)]
pub struct AdaptiveCoolingConfig {
    /// First cooldown of a peer.
    pub initial: Duration,
    /// Longest cooldown of a peer.
    pub max: Duration,
    /// Growth from one cooldown to the next; zero counts as one.
    pub escalation_factor: u32,
}

/// A span times a factor, at most `max`.
pub open spec fn scaled_span(span: Duration, factor: nat, max: Duration) -> Duration {
    if span.nanos * factor <= max.nanos { Duration { nanos: (span.nanos * factor) as u128 } } else { max }
}

impl Default for AdaptiveCoolingConfig {
    fn default() -> (r: Self)
        ensures
            r.initial.nanos == ADAPTIVE_COOLDOWN_INITIAL_SECS * NANOS_PER_SEC,
            r.max.nanos == ADAPTIVE_COOLDOWN_MAX_SECS * NANOS_PER_SEC,
            r.escalation_factor == 2,
    {
        AdaptiveCoolingConfig {
            initial: Duration::from_secs(ADAPTIVE_COOLDOWN_INITIAL_SECS),
            max: Duration::from_secs(ADAPTIVE_COOLDOWN_MAX_SECS),
            escalation_factor: 2,
        }
    }
}

impl AdaptiveCoolingConfig {
    /// The growth factor that is applied.
    pub open spec fn factor(self) -> nat {
        if self.escalation_factor < 1 { 1 } else { self.escalation_factor as nat }
    }

    /// The cooldown that follows `previous`; the first one where that is zero.
    pub open spec fn next(self, previous: Duration) -> Duration {
        if previous.nanos == 0 {
            min_span(self.initial, self.max)
        } else {
            scaled_span(previous, self.factor(), self.max)
        }
    }

    /// The cooldown of a peer that is reported dead.
    pub open spec fn on_dead(self, current: Duration) -> Duration {
        scaled_span(
            if current.nanos == 0 { self.initial } else { current },
            2,
            self.max,
        )
    }

    /// The cooldown that a success leaves, where `decayed_above` is left of what it had above
    /// `initial`.
    pub open spec fn decayed(self, current: Duration, elapsed: Duration, decayed_above: Duration) -> Duration {
        if current.nanos <= self.initial.nanos || elapsed.nanos == 0 {
            max_span(current, self.initial)
        } else {
            let sum = if self.initial.nanos + decayed_above.nanos <= self.max.nanos {
                Duration { nanos: (self.initial.nanos + decayed_above.nanos) as u128 }
            } else {
                self.max
            };
            max_span(sum, self.initial)
        }
    }

    pub fn with_initial(self, initial: Duration) -> (r: Self)
        ensures
            r == (AdaptiveCoolingConfig { initial, ..self }),
    {
        AdaptiveCoolingConfig { initial, max: self.max, escalation_factor: self.escalation_factor }
    }

    pub fn with_max(self, max: Duration) -> (r: Self)
        ensures
            r == (AdaptiveCoolingConfig { max, ..self }),
    {
        AdaptiveCoolingConfig { initial: self.initial, max, escalation_factor: self.escalation_factor }
    }

    /// Sets the growth factor; zero becomes one.
    pub fn with_escalation_factor(self, factor: u32) -> (r: Self)
        ensures
            r.initial == self.initial,
            r.max == self.max,
            r.escalation_factor == if factor < 1 { 1 } else { factor },
    {
        let escalation_factor: u32 = if factor < 1 { 1 } else { factor };
        AdaptiveCoolingConfig { initial: self.initial, max: self.max, escalation_factor }
    }

    /// The growth factor, at least one.
    pub fn escalation_factor(&self) -> (r: u32)
        ensures
            r == self.factor(),
            r >= 1,
    {
        if self.escalation_factor < 1 { 1 } else { self.escalation_factor }
    }

    /// The cooldown of a peer that is suppressed again after `previous`; `previous` is zero at the
    /// first time.
    pub fn next_cooldown(&self, previous: Duration) -> (r: Duration)
        ensures
            r == self.next(previous),
    {
        if previous.is_zero() {
            return self.initial.at_most(self.max);
        }
        let factor: u32 = self.escalation_factor();
        match previous.checked_mul(factor) {
            Some(span) => span.at_most(self.max),
            None => self.max,
        }
    }

    /// The cooldown that a successful send leaves. `decayed_above` is what the decay has left of
    /// the part above `initial`; it counts only where there is such a part and time has passed.
    pub fn decay_on_success(&self, current: Duration, elapsed: Duration, decayed_above: Duration) -> (r: Duration)
        ensures
            r == self.decayed(current, elapsed, decayed_above),
            r.nanos >= self.initial.nanos,
    {
        if current.nanos <= self.initial.nanos || elapsed.is_zero() {
            return current.at_least(self.initial);
        }
        let decayed = self.initial.saturating_plus(decayed_above);
        decayed.at_most(self.max).at_least(self.initial)
    }

    /// The cooldown of a peer that is reported dead: twice the current one, or twice the first.
    pub fn escalate_on_dead(&self, current: Duration) -> (r: Duration)
        ensures
            r == self.on_dead(current),
    {
        let base = if current.is_zero() { self.initial } else { current };
        match base.checked_mul(2) {
            Some(span) => span.at_most(self.max),
            None => self.max,
        }
    }
}

/// No cooldown is longer than the longest one.
pub proof fn cooldown_never_exceeds_max(config: AdaptiveCoolingConfig, previous: Duration)
    ensures
        config.next(previous).nanos <= config.max.nanos,
        config.on_dead(previous).nanos <= config.max.nanos,
{
}

/// One suppression after another never shortens the cooldown, up to the longest one.
pub proof fn cooldown_escalates(config: AdaptiveCoolingConfig, previous: Duration)
    requires
        0 < previous.nanos <= config.max.nanos,
    ensures
        config.next(previous).nanos >= previous.nanos,
        config.on_dead(previous).nanos >= previous.nanos,
{
    assert(previous.nanos * config.factor() >= previous.nanos) by (nonlinear_arith)
        requires
            config.factor() >= 1,
    ;
}

/// A success never lengthens a cooldown that has reached the first one, and never takes it below.
pub proof fn cooldown_decays_towards_initial(
    config: AdaptiveCoolingConfig,
    current: Duration,
    elapsed: Duration,
    decayed_above: Duration,
)
    requires
        current.nanos >= config.initial.nanos,
        decayed_above.nanos <= current.nanos - config.initial.nanos,
    ensures
        config.initial.nanos <= config.decayed(current, elapsed, decayed_above).nanos <= current.nanos,
{
}

/// The longer a success comes after the suppression, the shorter the cooldown that it leaves: where
/// more time leaves no more of the excess, it leaves no longer cooldown, and no time leaves it as
/// it was.
pub proof fn later_successes_leave_shorter_cooldowns(
    config: AdaptiveCoolingConfig,
    current: Duration,
    sooner: Duration,
    left_sooner: Duration,
    later: Duration,
    left_later: Duration,
)
    requires
        current.nanos >= config.initial.nanos,
        sooner.nanos <= later.nanos,
        left_later.nanos <= left_sooner.nanos <= current.nanos - config.initial.nanos,
    ensures
        config.initial.nanos <= config.decayed(current, later, left_later).nanos,
        config.decayed(current, later, left_later).nanos <= config.decayed(current, sooner, left_sooner).nanos,
        config.decayed(current, sooner, left_sooner).nanos <= current.nanos,
        config.decayed(current, Duration { nanos: 0 }, left_sooner) == current,
{
}

/// The ninety-fifth percentile of `n` samples is at this index of the sorted samples.
pub open spec fn p95_index(n: nat) -> nat {
    ((19 * n + 19) / 20 - 1) as nat
}

/// The order of samples.
pub open spec fn sample_leq() -> spec_fn(u32, u32) -> bool {
    |a: u32, b: u32| a <= b
}

/// The ninety-fifth percentile of some samples.
pub open spec fn p95_of(samples: Seq<u32>) -> u32 {
    samples.sort_by(sample_leq())[p95_index(samples.len()) as int]
}

/// The samples after one more, the oldest of a full set forgotten.
pub open spec fn with_sample(samples: Seq<u32>, sample: u32) -> Seq<u32> {
    if samples.len() < PER_PEER_RTT_SAMPLE_CAP { samples.push(sample) } else { samples.skip(1).push(sample) }
}

/// A duration in whole milliseconds, held at the largest `u32`.
pub open spec fn sample_ms(observed: Duration) -> u32 {
    if observed.nanos / NANOS_PER_MILLI <= u32::MAX { (observed.nanos / NANOS_PER_MILLI) as u32 } else { u32::MAX }
}

/// The send timeout for a peer whose ninety-fifth percentile is `p95` milliseconds.
pub open spec fn timeout_for(p95: u32) -> nat {
    let scaled = p95 * PER_PEER_TIMEOUT_MULTIPLIER_HALVES / 2 * NANOS_PER_MILLI;
    if scaled > PER_PEER_TIMEOUT_CEILING_MS * NANOS_PER_MILLI {
        (PER_PEER_TIMEOUT_CEILING_MS * NANOS_PER_MILLI) as nat
    } else if scaled < PER_PEER_TIMEOUT_FLOOR_MS * NANOS_PER_MILLI {
        (PER_PEER_TIMEOUT_FLOOR_MS * NANOS_PER_MILLI) as nat
    } else {
        scaled as nat
    }
}

/// The samples in ascending order.
fn sorted(samples: &Vec<u32>) -> (r: Vec<u32>)
    ensures
        r@ == samples@.sort_by(sample_leq()),
        r@.len() == samples@.len(),
{
    let mut r: Vec<u32> = Vec::new();
    let mut i: usize = 0;
    assert(samples@.take(0) =~= Seq::empty());
    while i < samples.len()
        invariant
            i <= samples@.len(),
            r@.len() == i,
            vstd::relations::sorted_by(r@, sample_leq()),
            r@.to_multiset() =~= samples@.take(i as int).to_multiset(),
        decreases samples@.len() - i,
    {
        let sample: u32 = samples[i];
        let mut at: usize = 0;
        while at < r.len() && r[at] <= sample
            invariant
                at <= r@.len(),
                forall|j: int| 0 <= j < at ==> r@[j] <= sample,
            decreases r@.len() - at,
        {
            at = at + 1;
        }
        let ghost before = r@;
        r.insert(at, sample);
        proof {
            broadcast use vstd::seq_lib::group_to_multiset_ensures;
            assert(r@ == before.insert(at as int, sample));
            assert(samples@.take(i + 1) =~= samples@.take(i as int).push(sample));
            assert forall|a: int, b: int| 0 <= a < b < r@.len() implies #[trigger] sample_leq()(r@[a], r@[b]) by {
                let a0 = if a < at { a } else { a - 1 };
                let b0 = if b < at { b } else { b - 1 };
                if a != at && b != at {
                    assert(sample_leq()(before[a0], before[b0]));
                } else if a == at && at < before.len() {
                    if b0 != at {
                        assert(sample_leq()(before[at as int], before[b0]));
                    }
                }
            }
        }
        i = i + 1;
    }
    proof {
        assert(samples@.take(samples@.len() as int) =~= samples@);
        samples@.lemma_sort_by_ensures(sample_leq());
        vstd::seq_lib::lemma_sorted_unique(r@, samples@.sort_by(sample_leq()), sample_leq());
    }
    r
}

/// The latest send durations of every peer.
pub struct PerPeerRttTracker {
    samples: IdMap<PeerId, Vec<u32>>,
}

impl PerPeerRttTracker {
    pub closed spec fn wf(&self) -> bool {
        &&& self.samples.wf()
        &&& forall|peer: PeerId| #[trigger]
            self.samples@.dom().contains(peer) ==> 0 < self.samples@[peer]@.len() <= PER_PEER_RTT_SAMPLE_CAP
    }

    /// The samples kept of a peer in milliseconds, oldest first.
    pub closed spec fn samples_of(&self, peer: PeerId) -> Seq<u32> {
        if self.samples@.dom().contains(peer) { self.samples@[peer]@ } else { Seq::empty() }
    }

    pub fn new() -> (r: Self)
        ensures
            r.wf(),
            forall|peer: PeerId| r.samples_of(peer) == Seq::<u32>::empty(),
    {
        PerPeerRttTracker { samples: IdMap::new() }
    }

    /// Notes how long a send to `peer` took.
    pub fn record(&mut self, peer: PeerId, observed: Duration)
        requires
            old(self).wf(),
        ensures
            final(self).wf(),
            final(self).samples_of(peer) == with_sample(old(self).samples_of(peer), sample_ms(observed)),
            forall|other: PeerId| other != peer ==> #[trigger] final(self).samples_of(other) == old(self).samples_of(other),
    {
        let ms: u128 = observed.as_millis();
        let sample: u32 = if ms <= u32::MAX as u128 { ms as u32 } else { u32::MAX };
        let mut kept: Vec<u32> = match self.samples.remove(&peer) {
            Some(kept) => kept,
            None => Vec::new(),
        };
        let ghost before = kept@;
        assert(before =~= old(self).samples_of(peer));
        if kept.len() >= PER_PEER_RTT_SAMPLE_CAP {
            kept.remove(0);
            assert(kept@ =~= before.skip(1));
        }
        kept.push(sample);
        self.samples.insert(peer, kept);
        assert(self.samples_of(peer) =~= with_sample(old(self).samples_of(peer), sample));
    }

    /// The ninety-fifth percentile of a peer's samples in milliseconds.
    pub fn p95_ms(&self, peer: &PeerId) -> (r: Option<u32>)
        requires
            self.wf(),
        ensures
            r == if self.samples_of(*peer).len() == 0 { None } else { Some(p95_of(self.samples_of(*peer))) },
    {
        match self.samples.get(peer) {
            Some(kept) => {
                let all = sorted(kept);
                let n: usize = all.len();
                let index: usize = (19 * n + 19) / 20 - 1;
                Some(all[index])
            },
            None => None,
        }
    }

    /// How many samples of a peer are kept.
    pub fn sample_count(&self, peer: &PeerId) -> (r: u32)
        requires
            self.wf(),
        ensures
            r == self.samples_of(*peer).len(),
            r <= PER_PEER_RTT_SAMPLE_CAP,
    {
        match self.samples.get(peer) {
            Some(kept) => kept.len() as u32,
            None => 0,
        }
    }

    /// How long a send to a peer may take: two and a half times its ninety-fifth percentile,
    /// between the floor and the ceiling; before the first sample `legacy_floor`, at most the
    /// ceiling.
    pub fn adaptive_timeout(&self, peer: &PeerId, legacy_floor: Duration) -> (r: Duration)
        requires
            self.wf(),
        ensures
            self.samples_of(*peer).len() == 0 ==> r == min_span(
                legacy_floor,
                crate::config::millis(PER_PEER_TIMEOUT_CEILING_MS),
            ),
            self.samples_of(*peer).len() > 0 ==> r.nanos == timeout_for(p95_of(self.samples_of(*peer))),
    {
        let ceiling = Duration::from_millis(PER_PEER_TIMEOUT_CEILING_MS);
        match self.p95_ms(peer) {
            None => legacy_floor.at_most(ceiling),
            Some(p95) => {
                let scaled_ms: u64 = (p95 as u64) * PER_PEER_TIMEOUT_MULTIPLIER_HALVES / 2;
                Duration::from_millis(scaled_ms).at_least(Duration::from_millis(PER_PEER_TIMEOUT_FLOOR_MS)).at_most(
                    ceiling,
                )
            },
        }
    }
}

/// Once a peer has been measured its timeout lies between the floor and the ceiling.
pub proof fn timeout_stays_between_floor_and_ceiling(p95: u32)
    ensures
        PER_PEER_TIMEOUT_FLOOR_MS * NANOS_PER_MILLI <= timeout_for(p95) <= PER_PEER_TIMEOUT_CEILING_MS
            * NANOS_PER_MILLI,
{
}

/// A sample is forgotten after as many later ones as are kept.
pub proof fn old_samples_are_forgotten(samples: Seq<u32>, later: Seq<u32>)
    requires
        samples.len() <= PER_PEER_RTT_SAMPLE_CAP,
        later.len() == PER_PEER_RTT_SAMPLE_CAP,
    ensures
        with_samples(samples, later) == later,
{
    lemma_with_samples(samples, later);
    assert((samples + later).skip(samples.len() as int) =~= later);
}

/// The samples after some more, in their order.
pub open spec fn with_samples(samples: Seq<u32>, later: Seq<u32>) -> Seq<u32>
    decreases later.len(),
{
    if later.len() == 0 {
        samples
    } else {
        with_sample(with_samples(samples, later.drop_last()), later.last())
    }
}

proof fn lemma_with_samples(samples: Seq<u32>, later: Seq<u32>)
    requires
        samples.len() <= PER_PEER_RTT_SAMPLE_CAP,
    ensures
        ({
            let all = samples + later;
            let lost = if all.len() <= PER_PEER_RTT_SAMPLE_CAP { 0 } else { all.len() - PER_PEER_RTT_SAMPLE_CAP };
            with_samples(samples, later) == all.skip(lost)
        }),
    decreases later.len(),
{
    let all = samples + later;
    let lost = if all.len() <= PER_PEER_RTT_SAMPLE_CAP { 0 } else { all.len() - PER_PEER_RTT_SAMPLE_CAP };
    if later.len() == 0 {
        assert(all.skip(lost) =~= samples);
    } else {
        lemma_with_samples(samples, later.drop_last());
        assert(with_samples(samples, later) =~= all.skip(lost));
    }
}

/// The cooldown in numbers: the first one is the initial one, each later one is the one before
/// times the growth factor, and none is longer than the longest.
pub proof fn cooldown_grows_by_its_factor(config: AdaptiveCoolingConfig, previous: Duration)
    ensures
        previous.nanos == 0 && config.initial.nanos <= config.max.nanos ==> config.next(previous).nanos
            == config.initial.nanos,
        previous.nanos == 0 && config.initial.nanos > config.max.nanos ==> config.next(previous).nanos
            == config.max.nanos,
        previous.nanos > 0 && config.escalation_factor >= 1 && previous.nanos * config.escalation_factor
            <= config.max.nanos ==> config.next(previous).nanos == previous.nanos * config.escalation_factor,
        previous.nanos > 0 && config.escalation_factor >= 1 && previous.nanos * config.escalation_factor
            > config.max.nanos ==> config.next(previous).nanos == config.max.nanos,
        previous.nanos > 0 && config.escalation_factor == 0 && previous.nanos <= config.max.nanos ==> config.next(
            previous,
        ).nanos == previous.nanos,
        previous.nanos > 0 && config.escalation_factor == 0 && previous.nanos > config.max.nanos ==> config.next(
            previous,
        ).nanos == config.max.nanos,
{
}

/// The cooldown of a dead peer in numbers: twice the current one, or twice the initial one where
/// there is none, and no longer than the longest.
pub proof fn dead_peers_cool_twice_as_long(config: AdaptiveCoolingConfig, current: Duration)
    ensures
        ({
            let base = if current.nanos > 0 { current.nanos } else { config.initial.nanos };
            &&& 2 * base <= config.max.nanos ==> config.on_dead(current).nanos == 2 * base
            &&& 2 * base > config.max.nanos ==> config.on_dead(current).nanos == config.max.nanos
        }),
{
}

/// The cooldown of a peer that has been suppressed so often in a row.
pub open spec fn cooldown_in_a_row(config: AdaptiveCoolingConfig, n: nat) -> Duration
    decreases n,
{
    if n == 0 { Duration { nanos: 0 } } else { config.next(cooldown_in_a_row(config, (n - 1) as nat)) }
}

/// One suppression after another multiplies the initial cooldown, up to the longest.
pub proof fn cooldowns_in_a_row_are_powers(config: AdaptiveCoolingConfig, n: nat)
    requires
        0 < config.initial.nanos <= config.max.nanos,
        config.escalation_factor >= 1,
        n >= 1,
    ensures
        ({
            let grown = config.initial.nanos * pow(config.escalation_factor as int, (n - 1) as nat);
            cooldown_in_a_row(config, n).nanos == if grown <= config.max.nanos { grown } else { config.max.nanos as int }
        }),
    decreases n,
{
    let f = config.escalation_factor as int;
    if n == 1 {
        reveal_with_fuel(cooldown_in_a_row, 2);
        vstd::arithmetic::power::lemma_pow0(f);
    } else {
        cooldowns_in_a_row_are_powers(config, (n - 1) as nat);
        let before = cooldown_in_a_row(config, (n - 1) as nat);
        let less = pow(f, (n - 2) as nat);
        let initial = config.initial.nanos as int;
        let max = config.max.nanos as int;
        reveal(pow);
        assert(pow(f, (n - 1) as nat) == f * less);
        vstd::arithmetic::power::lemma_pow_positive(f, (n - 2) as nat);
        cooldown_grows_by_its_factor(config, before);
        assert(initial * (f * less) == (initial * less) * f) by (nonlinear_arith);
        assert(initial * less > 0) by (nonlinear_arith)
            requires
                initial > 0,
                less > 0,
        ;
        if initial * less > max {
            assert((initial * less) * f > max) by (nonlinear_arith)
                requires
                    initial * less > max,
                    f >= 1,
                    max >= 0,
            ;
            assert(max * f >= max) by (nonlinear_arith)
                requires
                    f >= 1,
                    max >= 0,
            ;
        }
    }
}

/// What a success leaves of a cooldown in numbers: the initial one and what is left of the excess,
/// and no longer than the longest.
pub proof fn successes_leave_the_excess_that_is_left(
    config: AdaptiveCoolingConfig,
    current: Duration,
    elapsed: Duration,
    decayed_above: Duration,
)
    requires
        config.initial.nanos <= config.max.nanos,
    ensures
        ({
            let r = config.decayed(current, elapsed, decayed_above).nanos;
            let sum = config.initial.nanos + decayed_above.nanos;
            &&& current.nanos <= config.initial.nanos ==> r == config.initial.nanos
            &&& current.nanos > config.initial.nanos && elapsed.nanos == 0 ==> r == current.nanos
            &&& current.nanos > config.initial.nanos && elapsed.nanos > 0 && sum <= config.max.nanos ==> r == sum
            &&& current.nanos > config.initial.nanos && elapsed.nanos > 0 && sum > config.max.nanos ==> r
                == config.max.nanos
        }),
{
}

/// The ninety-fifth percentile by rank: in whatever way the samples are put in ascending order, it
/// stands where at least nineteen in twenty are reached for the first time.
pub proof fn percentile_stands_at_its_rank(samples: Seq<u32>, ascending: Seq<u32>, k: int)
    requires
        samples.len() > 0,
        ascending.to_multiset() == samples.to_multiset(),
        forall|i: int, j: int| 0 <= i < j < ascending.len() ==> #[trigger] ascending[i] <= #[trigger] ascending[j],
        0 <= k,
        20 * k < 19 * samples.len(),
        19 * samples.len() <= 20 * (k + 1),
    ensures
        k < ascending.len(),
        p95_of(samples) == ascending[k],
{
    broadcast use vstd::seq_lib::group_to_multiset_ensures;

    samples.lemma_sort_by_ensures(sample_leq());
    assert(ascending.to_multiset().len() == ascending.len());
    assert(samples.to_multiset().len() == samples.len());
    assert forall|i: int, j: int| 0 <= i < j < ascending.len() implies #[trigger] sample_leq()(
        ascending[i],
        ascending[j],
    ) by {
        assert(ascending[i] <= ascending[j]);
    }
    vstd::seq_lib::lemma_sorted_unique(ascending, samples.sort_by(sample_leq()), sample_leq());
}

/// A sample is kept in whole milliseconds, the latest one last; all others stay in their order, and
/// the oldest goes where there are as many as are kept.
pub proof fn samples_are_kept_in_their_order(samples: Seq<u32>, observed: Duration)
    requires
        samples.len() <= PER_PEER_RTT_SAMPLE_CAP,
    ensures
        ({
            let ms = observed.nanos / NANOS_PER_MILLI;
            let after = with_sample(samples, sample_ms(observed));
            &&& after.len() > 0
            &&& ms <= u32::MAX ==> after.last() == ms
            &&& ms > u32::MAX ==> after.last() == u32::MAX
            &&& samples.len() < PER_PEER_RTT_SAMPLE_CAP ==> after.len() == samples.len() + 1 && (forall|i: int|
                0 <= i < samples.len() ==> #[trigger] after[i] == samples[i])
            &&& samples.len() == PER_PEER_RTT_SAMPLE_CAP ==> after.len() == samples.len() && (forall|i: int|
                0 <= i < samples.len() - 1 ==> #[trigger] after[i] == samples[i + 1])
        }),
{
}

/// The timeout in numbers: two and a half times the percentile, rounded down to whole milliseconds,
/// between the floor and the ceiling.
pub proof fn timeouts_are_two_and_a_half_times_the_percentile(p95: u32)
    ensures
        ({
            let ms = (5 * p95) / 2;
            let floor = PER_PEER_TIMEOUT_FLOOR_MS;
            let ceiling = PER_PEER_TIMEOUT_CEILING_MS;
            &&& floor <= ms <= ceiling ==> timeout_for(p95) == ms * NANOS_PER_MILLI
            &&& ms < floor ==> timeout_for(p95) == floor * NANOS_PER_MILLI
            &&& ms > ceiling ==> timeout_for(p95) == ceiling * NANOS_PER_MILLI
        }),
{
}

} // verus!
