//! The evidence from which a peer is scored.
//!
//! The score itself is a weighted, decaying mean; here stand the counts and the times that it is
//! made of.

use vstd::prelude::*;

use crate::cooling::SendAttemptKind;
use crate::time::Instant;

verus! {

/// Events of one sort: how many, and when the last one was.
#[derive(Clone, Copy, Debug, PartialEq, Eq, Structural)]
pub struct EvidenceCounter {
    pub events: u64,
    pub updated_at: Instant,
}

impl EvidenceCounter {
    pub open spec fn none(now: Instant) -> Self {
        EvidenceCounter { events: 0, updated_at: now }
    }

    /// The counter after one more event, held at the largest count.
    pub open spec fn plus_one(self, now: Instant) -> Self {
        EvidenceCounter {
            events: if self.events < u64::MAX { (self.events + 1) as u64 } else { u64::MAX },
            updated_at: now,
        }
    }

    /// The time of the last event.
    pub open spec fn latest(self) -> Option<Instant> {
        if self.events > 0 { Some(self.updated_at) } else { None }
    }

    pub fn new(now: Instant) -> (r: Self)
        ensures
            r == Self::none(now),
    {
        EvidenceCounter { events: 0, updated_at: now }
    }

    pub fn add_at(&mut self, now: Instant)
        ensures
            *final(self) == old(self).plus_one(now),
    {
        self.events = self.events.saturating_add(1);
        self.updated_at = now;
    }

    pub fn last_activity(&self) -> (r: Option<Instant>)
        ensures
            r == self.latest(),
    {
        if self.events > 0 { Some(self.updated_at) } else { None }
    }
}

/// What is known of a peer's service to one topic.
#[derive(Clone, Copy, Debug, PartialEq, Eq, Structural)]
pub struct PeerScore {
    /// Full messages received from the peer.
    pub messages_delivered: u64,
    /// Requests sent to the peer.
    pub iwant_requests: u64,
    /// Requests that the peer answered.
    pub iwant_responses: u64,
    /// When the peer was last heard of.
    pub last_seen: Instant,
    pub outbound_send_successes: EvidenceCounter,
    pub outbound_send_timeouts: EvidenceCounter,
    pub cooling_events: EvidenceCounter,
    pub recovery_probes: EvidenceCounter,
    pub recovery_successes: EvidenceCounter,
}

/// The later of two points.
pub open spec fn later_of(a: Instant, b: Instant) -> Instant {
    if a.nanos >= b.nanos { a } else { b }
}

/// The later of a point and another that may be missing.
pub open spec fn later_of_some(a: Instant, b: Option<Instant>) -> Instant {
    match b {
        Some(t) => later_of(a, t),
        None => a,
    }
}

/// A count after one more.
pub open spec fn one_more(count: u64) -> u64 {
    if count < u64::MAX { (count + 1) as u64 } else { u64::MAX }
}

impl PeerScore {
    /// A peer of which nothing is known.
    pub open spec fn unknown(now: Instant) -> Self {
        PeerScore {
            messages_delivered: 0,
            iwant_requests: 0,
            iwant_responses: 0,
            last_seen: now,
            outbound_send_successes: EvidenceCounter::none(now),
            outbound_send_timeouts: EvidenceCounter::none(now),
            cooling_events: EvidenceCounter::none(now),
            recovery_probes: EvidenceCounter::none(now),
            recovery_successes: EvidenceCounter::none(now),
        }
    }

    pub open spec fn seen(self, now: Instant) -> Self {
        PeerScore { last_seen: later_of(self.last_seen, now), ..self }
    }

    pub open spec fn delivered(self, now: Instant) -> Self {
        PeerScore { messages_delivered: one_more(self.messages_delivered), last_seen: now, ..self }
    }

    pub open spec fn requested(self) -> Self {
        PeerScore { iwant_requests: one_more(self.iwant_requests), ..self }
    }

    pub open spec fn responded(self, now: Instant) -> Self {
        PeerScore { iwant_responses: one_more(self.iwant_responses), last_seen: now, ..self }
    }

    pub open spec fn probed(self, now: Instant) -> Self {
        PeerScore { recovery_probes: self.recovery_probes.plus_one(now), ..self }
    }

    pub open spec fn sent(self, now: Instant, kind: SendAttemptKind) -> Self {
        PeerScore {
            outbound_send_successes: self.outbound_send_successes.plus_one(now),
            recovery_successes: if kind == SendAttemptKind::RecoveryProbe {
                self.recovery_successes.plus_one(now)
            } else {
                self.recovery_successes
            },
            ..self
        }
    }

    pub open spec fn send_timed_out(self, now: Instant) -> Self {
        PeerScore { outbound_send_timeouts: self.outbound_send_timeouts.plus_one(now), ..self }
    }

    pub open spec fn cooled(self, now: Instant) -> Self {
        PeerScore { cooling_events: self.cooling_events.plus_one(now), ..self }
    }

    /// The time of the latest evidence of any sort.
    pub open spec fn latest_evidence(self) -> Instant {
        later_of_some(
            later_of_some(
                later_of_some(
                    later_of_some(
                        later_of_some(self.last_seen, self.outbound_send_successes.latest()),
                        self.outbound_send_timeouts.latest(),
                    ),
                    self.cooling_events.latest(),
                ),
                self.recovery_probes.latest(),
            ),
            self.recovery_successes.latest(),
        )
    }

    pub fn new_at(now: Instant) -> (r: Self)
        ensures
            r == Self::unknown(now),
    {
        PeerScore {
            messages_delivered: 0,
            iwant_requests: 0,
            iwant_responses: 0,
            last_seen: now,
            outbound_send_successes: EvidenceCounter::new(now),
            outbound_send_timeouts: EvidenceCounter::new(now),
            cooling_events: EvidenceCounter::new(now),
            recovery_probes: EvidenceCounter::new(now),
            recovery_successes: EvidenceCounter::new(now),
        }
    }

    /// The peer delivered a message.
    pub fn record_delivery(&mut self, now: Instant)
        ensures
            *final(self) == old(self).delivered(now),
    {
        self.messages_delivered = self.messages_delivered.saturating_add(1);
        self.last_seen = now;
    }

    /// The peer was heard of.
    pub fn record_seen_at(&mut self, now: Instant)
        ensures
            *final(self) == old(self).seen(now),
    {
        self.last_seen = self.last_seen.latest(now);
    }

    /// A request was sent to the peer.
    pub fn record_iwant_request(&mut self)
        ensures
            *final(self) == old(self).requested(),
    {
        self.iwant_requests = self.iwant_requests.saturating_add(1);
    }

    /// The peer answered a request.
    pub fn record_iwant_response(&mut self, now: Instant)
        ensures
            *final(self) == old(self).responded(now),
    {
        self.iwant_responses = self.iwant_responses.saturating_add(1);
        self.last_seen = now;
    }

    pub fn record_recovery_probe_at(&mut self, now: Instant)
        ensures
            *final(self) == old(self).probed(now),
    {
        self.recovery_probes.add_at(now);
    }

    pub fn record_outbound_send_success_at(&mut self, now: Instant, kind: SendAttemptKind)
        ensures
            *final(self) == old(self).sent(now, kind),
    {
        self.outbound_send_successes.add_at(now);
        if kind == SendAttemptKind::RecoveryProbe {
            self.recovery_successes.add_at(now);
        }
    }

    pub fn record_outbound_send_timeout_at(&mut self, now: Instant)
        ensures
            *final(self) == old(self).send_timed_out(now),
    {
        self.outbound_send_timeouts.add_at(now);
    }

    pub fn record_cooling_event_at(&mut self, now: Instant)
        ensures
            *final(self) == old(self).cooled(now),
    {
        self.cooling_events.add_at(now);
    }

    /// The time of the latest evidence of any sort.
    pub fn last_activity(&self) -> (r: Instant)
        ensures
            r == self.latest_evidence(),
            r.nanos >= self.last_seen.nanos,
    {
        let mut latest = self.last_seen;
        if let Some(at) = self.outbound_send_successes.last_activity() {
            latest = latest.latest(at);
        }
        if let Some(at) = self.outbound_send_timeouts.last_activity() {
            latest = latest.latest(at);
        }
        if let Some(at) = self.cooling_events.last_activity() {
            latest = latest.latest(at);
        }
        if let Some(at) = self.recovery_probes.last_activity() {
            latest = latest.latest(at);
        }
        if let Some(at) = self.recovery_successes.last_activity() {
            latest = latest.latest(at);
        }
        latest
    }
}

/// Every event counts once, for itself alone, and notes its time.
pub proof fn events_count_once(score: PeerScore, now: Instant, kind: SendAttemptKind)
    requires
        score.messages_delivered < u64::MAX && score.iwant_requests < u64::MAX && score.iwant_responses < u64::MAX,
        score.outbound_send_successes.events < u64::MAX && score.outbound_send_timeouts.events < u64::MAX,
        score.cooling_events.events < u64::MAX && score.recovery_probes.events < u64::MAX,
        score.recovery_successes.events < u64::MAX,
    ensures
        ({
            let r = score.delivered(now);
            &&& r.messages_delivered == score.messages_delivered + 1 && r.last_seen == now
            &&& r == (PeerScore { messages_delivered: r.messages_delivered, last_seen: now, ..score })
        }),
        ({
            let r = score.requested();
            &&& r.iwant_requests == score.iwant_requests + 1
            &&& r == (PeerScore { iwant_requests: r.iwant_requests, ..score })
        }),
        ({
            let r = score.responded(now);
            &&& r.iwant_responses == score.iwant_responses + 1 && r.last_seen == now
            &&& r == (PeerScore { iwant_responses: r.iwant_responses, last_seen: now, ..score })
        }),
        ({
            let r = score.seen(now);
            &&& score.last_seen.nanos <= r.last_seen.nanos && now.nanos <= r.last_seen.nanos
            &&& r.last_seen == now || r.last_seen == score.last_seen
            &&& r == (PeerScore { last_seen: r.last_seen, ..score })
        }),
        ({
            let r = score.probed(now);
            &&& r.recovery_probes.events == score.recovery_probes.events + 1 && r.recovery_probes.updated_at == now
            &&& r == (PeerScore { recovery_probes: r.recovery_probes, ..score })
        }),
        ({
            let r = score.send_timed_out(now);
            &&& r.outbound_send_timeouts.events == score.outbound_send_timeouts.events + 1
            &&& r.outbound_send_timeouts.updated_at == now
            &&& r == (PeerScore { outbound_send_timeouts: r.outbound_send_timeouts, ..score })
        }),
        ({
            let r = score.cooled(now);
            &&& r.cooling_events.events == score.cooling_events.events + 1 && r.cooling_events.updated_at == now
            &&& r == (PeerScore { cooling_events: r.cooling_events, ..score })
        }),
        ({
            let r = score.sent(now, kind);
            &&& r.outbound_send_successes.events == score.outbound_send_successes.events + 1
            &&& r.outbound_send_successes.updated_at == now
            &&& kind == SendAttemptKind::RecoveryProbe ==> r.recovery_successes.events
                == score.recovery_successes.events + 1 && r.recovery_successes.updated_at == now
            &&& kind != SendAttemptKind::RecoveryProbe ==> r.recovery_successes == score.recovery_successes
            &&& r == (PeerScore {
                outbound_send_successes: r.outbound_send_successes,
                recovery_successes: r.recovery_successes,
                ..score
            })
        }),
{
}

/// The latest evidence is the time of some evidence, and none is later.
pub proof fn latest_evidence_is_the_latest(score: PeerScore)
    ensures
        ({
            let t = score.latest_evidence().nanos;
            let sent = score.outbound_send_successes;
            let lost = score.outbound_send_timeouts;
            let cool = score.cooling_events;
            let probe = score.recovery_probes;
            let back = score.recovery_successes;
            &&& t >= score.last_seen.nanos
            &&& sent.events > 0 ==> t >= sent.updated_at.nanos
            &&& lost.events > 0 ==> t >= lost.updated_at.nanos
            &&& cool.events > 0 ==> t >= cool.updated_at.nanos
            &&& probe.events > 0 ==> t >= probe.updated_at.nanos
            &&& back.events > 0 ==> t >= back.updated_at.nanos
            &&& {
                ||| t == score.last_seen.nanos
                ||| sent.events > 0 && t == sent.updated_at.nanos
                ||| lost.events > 0 && t == lost.updated_at.nanos
                ||| cool.events > 0 && t == cool.updated_at.nanos
                ||| probe.events > 0 && t == probe.updated_at.nanos
                ||| back.events > 0 && t == back.updated_at.nanos
            }
        }),
{
}

} // verus!
