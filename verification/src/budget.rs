//! How many sends to one peer may be under way at once.

use vstd::prelude::*;

use crate::collections::IdMap;
use crate::config::{
    secs, OUTBOUND_BUDGET_REAP_AFTER_SECS, OUTBOUND_CONTROL_PERMITS_PER_PEER, OUTBOUND_CRITICAL_QUEUE_PER_PEER,
};
use crate::ids::PeerId;
use crate::time::{elapsed_between, Duration, Instant};

verus! {

/// How much a topic matters.
#[derive(Clone, Copy, Debug, PartialEq, Eq, Structural)]
pub enum TopicPriority {
    Critical,
    Normal,
    Bulk,
}

/// What is sent.
#[derive(Clone, Copy, Debug, PartialEq, Eq, Structural)]
pub enum SendOp {
    Eager,
    IHave,
    IWant,
    AntiEntropy,
}

impl SendOp {
    pub open spec fn name(self) -> Seq<char> {
        match self {
            SendOp::Eager => "EAGER"@,
            SendOp::IHave => "IHAVE"@,
            SendOp::IWant => "IWANT"@,
            SendOp::AntiEntropy => "ANTI_ENTROPY"@,
        }
    }

    pub fn label(self) -> (r: &'static str)
        ensures
            r@ == self.name(),
    {
        match self {
            SendOp::Eager => "EAGER",
            SendOp::IHave => "IHAVE",
            SendOp::IWant => "IWANT",
            SendOp::AntiEntropy => "ANTI_ENTROPY",
        }
    }
}

/// Full messages and control messages have budgets of their own.
#[derive(Clone, Copy, Debug, PartialEq, Eq, Structural)]
pub enum OutboundSendClass {
    Data,
    Control,
}

impl OutboundSendClass {
    pub open spec fn of_op(op: SendOp) -> Self {
        if op == SendOp::Eager { OutboundSendClass::Data } else { OutboundSendClass::Control }
    }

    pub open spec fn name(self) -> Seq<char> {
        match self {
            OutboundSendClass::Data => "data"@,
            OutboundSendClass::Control => "control"@,
        }
    }

    pub fn for_op(op: SendOp) -> (r: Self)
        ensures
            r == Self::of_op(op),
    {
        match op {
            SendOp::Eager => OutboundSendClass::Data,
            _ => OutboundSendClass::Control,
        }
    }

    pub fn label(self) -> (r: &'static str)
        ensures
            r@ == self.name(),
    {
        match self {
            OutboundSendClass::Data => "data",
            OutboundSendClass::Control => "control",
        }
    }
}

/// A full message on a critical topic has a queue of its own.
pub open spec fn is_critical(class: OutboundSendClass, priority: TopicPriority) -> bool {
    class == OutboundSendClass::Data && priority == TopicPriority::Critical
}

/// The critical sends to each peer, the waiting ones and the one in flight.
pub struct CriticalSendGate {
    queued: IdMap<PeerId, usize>,
}

impl CriticalSendGate {
    /// No queue is longer than it may be, and none is kept when empty.
    pub closed spec fn wf(&self) -> bool {
        &&& self.queued.wf()
        &&& forall|peer: PeerId| #[trigger]
            self.queued@.dom().contains(peer) ==> 0 < self.queued@[peer] <= OUTBOUND_CRITICAL_QUEUE_PER_PEER
    }

    /// The length of a peer's queue.
    pub closed spec fn depth(&self, peer: PeerId) -> nat {
        if self.queued@.dom().contains(peer) { self.queued@[peer] as nat } else { 0 }
    }

    /// The queues of all other peers are the same.
    pub open spec fn same_for_others(&self, before: &Self, peer: PeerId) -> bool {
        forall|other: PeerId| other != peer ==> #[trigger] self.depth(other) == before.depth(other)
    }

    pub fn new() -> (r: Self)
        ensures
            r.wf(),
            forall|peer: PeerId| #[trigger] r.depth(peer) == 0,
    {
        CriticalSendGate { queued: IdMap::new() }
    }

    /// Takes a place in a peer's queue; says whether there was one.
    pub fn try_reserve(&mut self, peer: PeerId) -> (r: bool)
        requires
            old(self).wf(),
        ensures
            final(self).wf(),
            r == (old(self).depth(peer) < OUTBOUND_CRITICAL_QUEUE_PER_PEER),
            final(self).depth(peer) == old(self).depth(peer) + (if r { 1nat } else { 0 }),
            final(self).same_for_others(old(self), peer),
            !r ==> *final(self) == *old(self),
    {
        let depth: usize = match self.queued.get(&peer) {
            Some(n) => *n,
            None => 0,
        };
        if depth >= OUTBOUND_CRITICAL_QUEUE_PER_PEER {
            return false;
        }
        self.queued.insert(peer, depth + 1);
        true
    }

    /// Gives a place in a peer's queue back.
    pub fn release(&mut self, peer: PeerId)
        requires
            old(self).wf(),
        ensures
            final(self).wf(),
            final(self).depth(peer) == (if old(self).depth(peer) > 0 { (old(self).depth(peer) - 1) as nat } else { 0 }),
            final(self).same_for_others(old(self), peer),
    {
        let depth: usize = match self.queued.get(&peer) {
            Some(n) => *n,
            None => 0,
        };
        if depth <= 1 {
            self.queued.remove(&peer);
        } else {
            self.queued.insert(peer, depth - 1);
        }
    }
}

/// A queue holds no more critical sends than it may.
pub proof fn critical_queue_is_bounded(gate: CriticalSendGate, peer: PeerId)
    requires
        gate.wf(),
    ensures
        gate.depth(peer) <= OUTBOUND_CRITICAL_QUEUE_PER_PEER,
{
}

/// What is under way to one peer.
#[derive(Clone, Copy, Debug, PartialEq, Eq, Structural)]
pub struct PeerOutboundBudgetEntry {
    /// The one normal or bulk full message in flight.
    pub data_slot: Option<u64>,
    pub control_in_flight: usize,
    pub last_used: Instant,
}

impl PeerOutboundBudgetEntry {
    pub open spec fn unused(now: Instant) -> Self {
        PeerOutboundBudgetEntry { data_slot: None, control_in_flight: 0, last_used: now }
    }

    /// Nothing is in flight, and nothing has been for long.
    pub open spec fn idle(self, now: Instant) -> bool {
        &&& self.data_slot is None
        &&& self.control_in_flight == 0
        &&& elapsed_between(now, self.last_used) > secs(OUTBOUND_BUDGET_REAP_AFTER_SECS).nanos
    }

    pub fn is_idle_at(&self, now: Instant) -> (r: bool)
        ensures
            r == self.idle(now),
    {
        self.data_slot.is_none() && self.control_in_flight == 0 && now.saturating_duration_since(self.last_used).nanos
            > Duration::from_secs(OUTBOUND_BUDGET_REAP_AFTER_SECS).nanos
    }
}

/// A send that may go out; it is given back when the send is over.
#[derive(Clone, Copy, Debug, PartialEq, Eq)]
pub struct OutboundSendPermit {
    pub peer: PeerId,
    pub class: OutboundSendClass,
    /// The data slot that it holds; zero for none.
    pub slot_id: u64,
    /// Whether it holds a place in the peer's critical queue.
    pub critical: bool,
}

/// The budgets that are still in use.
pub open spec fn reaped(entries: Map<PeerId, PeerOutboundBudgetEntry>, now: Instant) -> Map<
    PeerId,
    PeerOutboundBudgetEntry,
> {
    Map::new(|p: PeerId| entries.dom().contains(p) && !entries[p].idle(now), |p: PeerId| entries[p])
}

/// A peer's budget where it has one, else an unused one.
pub open spec fn budget_or_new(entries: Map<PeerId, PeerOutboundBudgetEntry>, peer: PeerId, now: Instant) -> PeerOutboundBudgetEntry {
    if entries.dom().contains(peer) { entries[peer] } else { PeerOutboundBudgetEntry::unused(now) }
}

/// The send budgets of all peers.
pub struct PeerOutboundBudgets {
    entries: IdMap<PeerId, PeerOutboundBudgetEntry>,
    critical_gate: CriticalSendGate,
    next_slot_id: u64,
}

impl PeerOutboundBudgets {
    pub closed spec fn wf(&self) -> bool {
        &&& self.entries.wf()
        &&& self.critical_gate.wf()
        &&& forall|peer: PeerId| #[trigger]
            self.entries@.dom().contains(peer) ==> self.entries@[peer].control_in_flight
                <= OUTBOUND_CONTROL_PERMITS_PER_PEER
    }

    pub closed spec fn entries(&self) -> Map<PeerId, PeerOutboundBudgetEntry> {
        self.entries@
    }

    pub closed spec fn gate(&self) -> CriticalSendGate {
        self.critical_gate
    }

    /// The identifier of the next data slot.
    pub closed spec fn next_slot(&self) -> u64 {
        self.next_slot_id
    }

    /// Whether a send of this sort must be refused now.
    pub open spec fn exhausted(&self, peer: PeerId, class: OutboundSendClass, priority: TopicPriority, now: Instant) -> bool {
        let entry = budget_or_new(reaped(self.entries(), now), peer, now);
        if is_critical(class, priority) {
            self.gate().depth(peer) >= OUTBOUND_CRITICAL_QUEUE_PER_PEER
        } else if class == OutboundSendClass::Data {
            entry.data_slot is Some
        } else {
            entry.control_in_flight >= OUTBOUND_CONTROL_PERMITS_PER_PEER
        }
    }

    /// What asking for a send gives, and all that it changes.
    pub open spec fn acquired(
        &self,
        before: &Self,
        peer: PeerId,
        class: OutboundSendClass,
        priority: TopicPriority,
        now: Instant,
        r: Option<OutboundSendPermit>,
    ) -> bool {
        let kept = reaped(before.entries(), now);
        let entry = PeerOutboundBudgetEntry { last_used: now, ..budget_or_new(kept, peer, now) };
        &&& (r is None) == before.exhausted(peer, class, priority, now)
        &&& if is_critical(class, priority) {
            match r {
                None => *self == *before,
                Some(permit) => {
                    &&& permit == (OutboundSendPermit { peer, class, slot_id: 0, critical: true })
                    &&& self.entries() == kept.insert(peer, entry)
                    &&& self.gate().depth(peer) == before.gate().depth(peer) + 1
                    &&& self.gate().same_for_others(&before.gate(), peer)
                    &&& self.next_slot() == before.next_slot()
                },
            }
        } else {
            &&& self.gate() == before.gate()
            &&& match r {
                None => {
                    &&& self.entries() == kept.insert(peer, entry)
                    &&& self.next_slot() == before.next_slot()
                },
                Some(permit) => if class == OutboundSendClass::Data {
                    &&& permit == (OutboundSendPermit { peer, class, slot_id: before.next_slot(), critical: false })
                    &&& self.entries() == kept.insert(
                        peer,
                        PeerOutboundBudgetEntry { data_slot: Some(before.next_slot()), ..entry },
                    )
                    &&& self.next_slot() == if before.next_slot() == u64::MAX {
                        0
                    } else {
                        (before.next_slot() + 1) as u64
                    }
                } else {
                    &&& permit == (OutboundSendPermit { peer, class, slot_id: 0, critical: false })
                    &&& self.entries() == kept.insert(
                        peer,
                        PeerOutboundBudgetEntry { control_in_flight: (entry.control_in_flight + 1) as usize, ..entry },
                    )
                    &&& self.next_slot() == before.next_slot()
                },
            }
        }
    }

    pub fn new() -> (r: Self)
        ensures
            r.wf(),
            r.entries() == Map::<PeerId, PeerOutboundBudgetEntry>::empty(),
            forall|peer: PeerId| #[trigger] r.gate().depth(peer) == 0,
            r.next_slot() == 1,
    {
        PeerOutboundBudgets { entries: IdMap::new(), critical_gate: CriticalSendGate::new(), next_slot_id: 1 }
    }

    fn reap_at(&mut self, now: Instant)
        requires
            old(self).wf(),
        ensures
            final(self).wf(),
            final(self).entries@ == reaped(old(self).entries@, now),
            final(self).critical_gate == old(self).critical_gate,
            final(self).next_slot_id == old(self).next_slot_id,
    {
        let peers: Vec<PeerId> = self.entries.keys();
        let ghost all = self.entries@;
        let mut i: usize = 0;
        while i < peers.len()
            invariant
                i <= peers@.len(),
                peers@.no_duplicates(),
                peers@.to_set() == all.dom(),
                all == old(self).entries@,
                self.wf(),
                forall|p: PeerId| #[trigger] self.entries@.dom().contains(p) ==> all.dom().contains(p)
                    && self.entries@[p] == all[p],
                forall|j: int|
                    0 <= j < i ==> self.entries@.dom().contains(#[trigger] peers@[j]) == !all[peers@[j]].idle(now),
                forall|j: int| i <= j < peers@.len() ==> self.entries@.dom().contains(#[trigger] peers@[j]),
                self.critical_gate == old(self).critical_gate,
                self.next_slot_id == old(self).next_slot_id,
            decreases peers@.len() - i,
        {
            assert(peers@.to_set().contains(peers@[i as int]));
            let peer = peers[i];
            let idle = match self.entries.get(&peer) {
                Some(entry) => entry.is_idle_at(now),
                None => false,
            };
            if idle {
                self.entries.remove(&peer);
            }
            i = i + 1;
        }
        proof {
            assert forall|p: PeerId| all.dom().contains(p) implies #[trigger] self.entries@.dom().contains(p)
                == !all[p].idle(now) by {
                assert(peers@.to_set().contains(p));
                assert(peers@[peers@.index_of(p)] == p);
            }
            assert(self.entries@ =~= reaped(all, now));
        }
    }

    /// Asks for a send to a peer. A critical full message takes a place in the peer's queue, any
    /// other one the peer's single data slot, and a control message one of its control permits.
    pub fn try_acquire(
        &mut self,
        peer: PeerId,
        class: OutboundSendClass,
        priority: TopicPriority,
        now: Instant,
    ) -> (r: Option<OutboundSendPermit>)
        requires
            old(self).wf(),
        ensures
            final(self).wf(),
            final(self).acquired(old(self), peer, class, priority, now, r),
    {
        let critical = class == OutboundSendClass::Data && priority == TopicPriority::Critical;
        if critical {
            if !self.critical_gate.try_reserve(peer) {
                return None;
            }
        }
        self.reap_at(now);
        let mut entry = match self.entries.get(&peer) {
            Some(entry) => *entry,
            None => PeerOutboundBudgetEntry { data_slot: None, control_in_flight: 0, last_used: now },
        };
        entry.last_used = now;
        if critical {
            self.entries.insert(peer, entry);
            return Some(OutboundSendPermit { peer, class, slot_id: 0, critical: true });
        }
        let full = match class {
            OutboundSendClass::Data => entry.data_slot.is_some(),
            OutboundSendClass::Control => entry.control_in_flight >= OUTBOUND_CONTROL_PERMITS_PER_PEER,
        };
        if full {
            self.entries.insert(peer, entry);
            return None;
        }
        let slot_id: u64 = match class {
            OutboundSendClass::Data => {
                let slot_id: u64 = self.next_slot_id;
                self.next_slot_id = self.next_slot_id.wrapping_add(1);
                entry.data_slot = Some(slot_id);
                slot_id
            },
            OutboundSendClass::Control => {
                entry.control_in_flight = entry.control_in_flight + 1;
                0
            },
        };
        self.entries.insert(peer, entry);
        Some(OutboundSendPermit { peer, class, slot_id, critical: false })
    }

    /// A peer's budget after a permit was given back. A data slot is freed only by the permit that
    /// holds it.
    pub open spec fn returned(entry: PeerOutboundBudgetEntry, permit: OutboundSendPermit, now: Instant) -> PeerOutboundBudgetEntry {
        PeerOutboundBudgetEntry {
            data_slot: if permit.class == OutboundSendClass::Data && entry.data_slot == Some(permit.slot_id) {
                None
            } else {
                entry.data_slot
            },
            control_in_flight: if permit.class == OutboundSendClass::Control && entry.control_in_flight > 0 {
                (entry.control_in_flight - 1) as usize
            } else {
                entry.control_in_flight
            },
            last_used: now,
        }
    }

    /// All that giving a permit back changes.
    pub open spec fn released(&self, before: &Self, permit: OutboundSendPermit, now: Instant) -> bool {
        let entries = before.entries();
        let depth = before.gate().depth(permit.peer);
        &&& self.entries() == (if entries.dom().contains(permit.peer) {
            entries.insert(permit.peer, Self::returned(entries[permit.peer], permit, now))
        } else {
            entries
        })
        &&& self.gate().depth(permit.peer) == (if permit.critical && depth > 0 { (depth - 1) as nat } else { depth })
        &&& self.gate().same_for_others(&before.gate(), permit.peer)
        &&& self.next_slot() == before.next_slot()
    }

    /// Gives a permit back.
    pub fn release(&mut self, permit: OutboundSendPermit, now: Instant)
        requires
            old(self).wf(),
        ensures
            final(self).wf(),
            final(self).released(old(self), permit, now),
    {
        if permit.critical {
            self.critical_gate.release(permit.peer);
        }
        let mut entry = match self.entries.get(&permit.peer) {
            Some(entry) => *entry,
            None => {
                return;
            },
        };
        match permit.class {
            OutboundSendClass::Data => {
                let held = match entry.data_slot {
                    Some(slot_id) => slot_id == permit.slot_id,
                    None => false,
                };
                if held {
                    entry.data_slot = None;
                }
            },
            OutboundSendClass::Control => {
                if entry.control_in_flight > 0 {
                    entry.control_in_flight = entry.control_in_flight - 1;
                }
            },
        }
        entry.last_used = now;
        self.entries.insert(permit.peer, entry);
    }
}

/// No more control messages are under way to a peer than may be, and no more critical ones wait.
pub proof fn budgets_are_bounded(budgets: PeerOutboundBudgets, peer: PeerId)
    requires
        budgets.wf(),
    ensures
        budgets.entries().dom().contains(peer) ==> budgets.entries()[peer].control_in_flight
            <= OUTBOUND_CONTROL_PERMITS_PER_PEER,
        budgets.gate().depth(peer) <= OUTBOUND_CRITICAL_QUEUE_PER_PEER,
{
}

/// Critical sends and all others do not stand in each other's way: asking for one leaves open
/// whatever was open to the other.
pub proof fn critical_and_other_sends_are_apart(
    before: PeerOutboundBudgets,
    after: PeerOutboundBudgets,
    peer: PeerId,
    class: OutboundSendClass,
    priority: TopicPriority,
    other_class: OutboundSendClass,
    other_priority: TopicPriority,
    now: Instant,
    r: Option<OutboundSendPermit>,
)
    requires
        after.acquired(&before, peer, class, priority, now, r),
        is_critical(class, priority) != is_critical(other_class, other_priority),
    ensures
        after.exhausted(peer, other_class, other_priority, now) == before.exhausted(
            peer,
            other_class,
            other_priority,
            now,
        ),
{
}

/// Giving a data permit back twice frees nothing more than giving it back once.
pub proof fn returning_data_twice_changes_nothing(
    before: PeerOutboundBudgets,
    once: PeerOutboundBudgets,
    twice: PeerOutboundBudgets,
    permit: OutboundSendPermit,
    now: Instant,
)
    requires
        permit.class == OutboundSendClass::Data,
        !permit.critical,
        once.released(&before, permit, now),
        twice.released(&once, permit, now),
    ensures
        twice.entries() == once.entries(),
        forall|peer: PeerId| #[trigger] twice.gate().depth(peer) == once.gate().depth(peer),
{
    assert(twice.entries() =~= once.entries());
}

/// A permit that is given back leaves room for the next of its sort.
pub proof fn a_returned_permit_can_be_had_again(
    before: PeerOutboundBudgets,
    held: PeerOutboundBudgets,
    after: PeerOutboundBudgets,
    permit: OutboundSendPermit,
    priority: TopicPriority,
    now: Instant,
    later: Instant,
)
    requires
        before.wf(),
        held.acquired(&before, permit.peer, permit.class, priority, now, Some(permit)),
        after.released(&held, permit, later),
    ensures
        !after.exhausted(permit.peer, permit.class, priority, later),
{
}

/// When a send is refused: a critical full message where as many as may wait do so, any other full
/// message where one is in flight, and a control message where as many as may be are in flight.
pub proof fn budgets_run_out_at_their_limits(
    budgets: PeerOutboundBudgets,
    peer: PeerId,
    class: OutboundSendClass,
    priority: TopicPriority,
    now: Instant,
)
    ensures
        ({
            let known = budgets.entries().dom().contains(peer);
            let entry = budgets.entries()[peer];
            let refused = budgets.exhausted(peer, class, priority, now);
            &&& class == OutboundSendClass::Data && priority == TopicPriority::Critical ==> (refused
                <==> budgets.gate().depth(peer) >= OUTBOUND_CRITICAL_QUEUE_PER_PEER)
            &&& class == OutboundSendClass::Data && priority != TopicPriority::Critical ==> (refused <==> known
                && entry.data_slot is Some)
            &&& class == OutboundSendClass::Control ==> (refused <==> known && entry.control_in_flight
                >= OUTBOUND_CONTROL_PERMITS_PER_PEER)
        }),
{
}

/// What asking for a send does in numbers: a send that is let through takes up one place of its
/// sort, under a number of its own for a full message; and no other peer loses what it holds.
pub proof fn permits_take_up_one_place(
    before: PeerOutboundBudgets,
    after: PeerOutboundBudgets,
    peer: PeerId,
    class: OutboundSendClass,
    priority: TopicPriority,
    now: Instant,
    r: Option<OutboundSendPermit>,
    other: PeerId,
)
    requires
        before.wf(),
        after.acquired(&before, peer, class, priority, now, r),
    ensures
        ({
            let critical = class == OutboundSendClass::Data && priority == TopicPriority::Critical;
            let known = before.entries().dom().contains(peer);
            let flying = if known { before.entries()[peer].control_in_flight } else { 0 };
            let entry = after.entries()[peer];
            &&& r is Some ==> {
                &&& r->0.peer == peer && r->0.class == class && r->0.critical == critical
                &&& after.entries().dom().contains(peer) && entry.last_used == now
            }
            &&& r is Some && critical ==> after.gate().depth(peer) == before.gate().depth(peer) + 1
            &&& r is None || !critical ==> after.gate().depth(peer) == before.gate().depth(peer)
            &&& r is Some && class == OutboundSendClass::Data && !critical ==> entry.data_slot == Some(r->0.slot_id)
                && r->0.slot_id == before.next_slot() && after.next_slot() != before.next_slot()
            &&& r is Some && class == OutboundSendClass::Control ==> entry.control_in_flight == flying + 1
            &&& r is Some && class == OutboundSendClass::Data ==> entry.control_in_flight == flying
            &&& r is Some && (class == OutboundSendClass::Control || critical) && known ==> entry.data_slot
                == before.entries()[peer].data_slot
            &&& r is None ==> (after.exhausted(peer, class, priority, now))
        }),
        other != peer ==> after.gate().depth(other) == before.gate().depth(other),
        other != peer && before.entries().dom().contains(other) && (before.entries()[other].data_slot is Some
            || before.entries()[other].control_in_flight > 0) ==> after.entries().dom().contains(other)
            && after.entries()[other] == before.entries()[other],
        other != peer && after.entries().dom().contains(other) ==> before.entries().dom().contains(other)
            && after.entries()[other] == before.entries()[other],
{
}

/// Asking for a send to one peer does not use up what another may have.
pub proof fn peers_do_not_share_a_budget(
    before: PeerOutboundBudgets,
    after: PeerOutboundBudgets,
    peer: PeerId,
    class: OutboundSendClass,
    priority: TopicPriority,
    now: Instant,
    r: Option<OutboundSendPermit>,
    other: PeerId,
    other_class: OutboundSendClass,
    other_priority: TopicPriority,
)
    requires
        after.acquired(&before, peer, class, priority, now, r),
        other != peer,
    ensures
        after.exhausted(other, other_class, other_priority, now) == before.exhausted(
            other,
            other_class,
            other_priority,
            now,
        ),
{
    budgets_run_out_at_their_limits(before, other, other_class, other_priority, now);
    budgets_run_out_at_their_limits(after, other, other_class, other_priority, now);
}

/// A full message that is not critical is alone: while its permit is out the next is refused, and
/// only giving back that very permit makes room.
pub proof fn one_full_message_at_a_time(
    before: PeerOutboundBudgets,
    held: PeerOutboundBudgets,
    permit: OutboundSendPermit,
    priority: TopicPriority,
    next_priority: TopicPriority,
    other: OutboundSendPermit,
    after: PeerOutboundBudgets,
    now: Instant,
    later: Instant,
)
    requires
        before.wf(),
        permit.class == OutboundSendClass::Data,
        priority != TopicPriority::Critical,
        next_priority != TopicPriority::Critical,
        held.acquired(&before, permit.peer, permit.class, priority, now, Some(permit)),
        other.peer == permit.peer,
        after.released(&held, other, later),
    ensures
        held.exhausted(permit.peer, OutboundSendClass::Data, next_priority, later),
        other.class == OutboundSendClass::Data && other.slot_id == permit.slot_id ==> !after.exhausted(
            permit.peer,
            OutboundSendClass::Data,
            next_priority,
            later,
        ),
        other.class == OutboundSendClass::Control || other.slot_id != permit.slot_id ==> after.exhausted(
            permit.peer,
            OutboundSendClass::Data,
            next_priority,
            later,
        ),
{
}

/// What giving a permit back does in numbers: one place of its sort is free, and no other peer is
/// touched.
pub proof fn returned_permits_free_one_place(
    before: PeerOutboundBudgets,
    after: PeerOutboundBudgets,
    permit: OutboundSendPermit,
    now: Instant,
    other: PeerId,
)
    requires
        after.released(&before, permit, now),
        before.entries().dom().contains(permit.peer),
    ensures
        ({
            let old_entry = before.entries()[permit.peer];
            let entry = after.entries()[permit.peer];
            let depth = before.gate().depth(permit.peer);
            &&& after.entries().dom() == before.entries().dom()
            &&& permit.critical && depth > 0 ==> after.gate().depth(permit.peer) == depth - 1
            &&& !permit.critical ==> after.gate().depth(permit.peer) == depth
            &&& permit.class == OutboundSendClass::Control && old_entry.control_in_flight > 0
                ==> entry.control_in_flight == old_entry.control_in_flight - 1
            &&& permit.class == OutboundSendClass::Data ==> entry.control_in_flight == old_entry.control_in_flight
            &&& permit.class == OutboundSendClass::Control ==> entry.data_slot == old_entry.data_slot
            &&& entry.last_used == now
        }),
        other != permit.peer ==> after.gate().depth(other) == before.gate().depth(other),
        other != permit.peer && before.entries().dom().contains(other) ==> after.entries()[other]
            == before.entries()[other],
{
    assert(after.entries().dom() =~= before.entries().dom());
}

/// Full messages are data and all others control, and only full messages on critical topics are
/// critical.
pub proof fn full_messages_are_data(op: SendOp, priority: TopicPriority)
    ensures
        OutboundSendClass::of_op(op) == OutboundSendClass::Data <==> op == SendOp::Eager,
        OutboundSendClass::of_op(op) == OutboundSendClass::Control <==> op == SendOp::IHave || op == SendOp::IWant || op
            == SendOp::AntiEntropy,
        is_critical(OutboundSendClass::of_op(op), priority) <==> op == SendOp::Eager && priority
            == TopicPriority::Critical,
{
}

/// A budget is dropped where nothing is in flight and nothing has been for longer than it is kept.
pub proof fn unused_budgets_are_dropped(entries: Map<PeerId, PeerOutboundBudgetEntry>, peer: PeerId, now: Instant)
    ensures
        reaped(entries, now).dom().contains(peer) <==> entries.dom().contains(peer) && (entries[peer].data_slot is Some
            || entries[peer].control_in_flight > 0 || now.nanos <= entries[peer].last_used.nanos
            + OUTBOUND_BUDGET_REAP_AFTER_SECS * crate::time::NANOS_PER_SEC),
        reaped(entries, now).dom().contains(peer) ==> reaped(entries, now)[peer] == entries[peer],
{
}

} // verus!
