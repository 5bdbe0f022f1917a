//! The table of long-term scores, one for every peer on every topic.
//!
//! The weighted components of a score decay continuously; they are of a type `C` of the caller,
//! who brings them up to the moment of each event. Here stands which entry an event touches, since
//! when a peer is in the mesh, and in what order entries are reported.

use vstd::prelude::*;

use crate::collections::IdMap;
use crate::ids::{Identifier, PeerId, TopicId};
use crate::order::{bytes_before, is_before};
use crate::stats::SuppressedPeerKey;
use crate::time::{elapsed_between, min_span, Duration, Instant};

verus! {

/// What is kept of a peer on a topic.
#[derive(Clone, Copy, Debug)]
pub struct PeerScoreState<C> {
    /// Since when the peer is in the mesh.
    pub joined_mesh_at: Option<Instant>,
    pub components: C,
    /// The moment of which `components` speak.
    pub last_decay_at: Instant,
}

/// The long-term scores.
pub struct PeerScoring<C> {
    entries: IdMap<SuppressedPeerKey, PeerScoreState<C>>,
}

/// A peer on a topic.
pub open spec fn score_key(topic: TopicId, peer: PeerId) -> SuppressedPeerKey {
    SuppressedPeerKey { topic, peer }
}

impl<C: Copy> PeerScoring<C> {
    pub closed spec fn wf(&self) -> bool {
        self.entries.wf()
    }

    pub closed spec fn entries(&self) -> Map<SuppressedPeerKey, PeerScoreState<C>> {
        self.entries@
    }

    pub fn new() -> (r: Self)
        ensures
            r.wf(),
            r.entries() == Map::<SuppressedPeerKey, PeerScoreState<C>>::empty(),
    {
        PeerScoring { entries: IdMap::new() }
    }

    /// What is kept of a peer on a topic, if anything.
    pub fn entry(&self, topic: TopicId, peer: PeerId) -> (r: Option<PeerScoreState<C>>)
        requires
            self.wf(),
        ensures
            r == (if self.entries().dom().contains(score_key(topic, peer)) {
                Some(self.entries()[score_key(topic, peer)])
            } else {
                None
            }),
    {
        match self.entries.get(&SuppressedPeerKey { topic, peer }) {
            Some(state) => Some(*state),
            None => None,
        }
    }

    /// A peer is in the mesh of a topic. Its time there runs from the first such note; `blank` are
    /// the components of a peer of which nothing was kept.
    pub fn note_mesh_join(&mut self, topic: TopicId, peer: PeerId, now: Instant, blank: C)
        requires
            old(self).wf(),
        ensures
            final(self).wf(),
            final(self).entries() == old(self).entries().insert(
                score_key(topic, peer),
                if old(self).entries().dom().contains(score_key(topic, peer)) {
                    PeerScoreState {
                        joined_mesh_at: match old(self).entries()[score_key(topic, peer)].joined_mesh_at {
                            Some(at) => Some(at),
                            None => Some(now),
                        },
                        ..old(self).entries()[score_key(topic, peer)]
                    }
                } else {
                    PeerScoreState { joined_mesh_at: Some(now), components: blank, last_decay_at: now }
                },
            ),
    {
        let key = SuppressedPeerKey { topic, peer };
        let mut state = match self.entries.get(&key) {
            Some(state) => *state,
            None => PeerScoreState { joined_mesh_at: None, components: blank, last_decay_at: now },
        };
        if state.joined_mesh_at.is_none() {
            state.joined_mesh_at = Some(now);
        }
        self.entries.insert(key, state);
    }

    /// An event has changed the components of a peer on a topic, which are now `components`. A
    /// moment before the last one is not noted.
    pub fn record(&mut self, topic: TopicId, peer: PeerId, now: Instant, components: C)
        requires
            old(self).wf(),
        ensures
            final(self).wf(),
            final(self).entries() == old(self).entries().insert(
                score_key(topic, peer),
                if old(self).entries().dom().contains(score_key(topic, peer)) {
                    PeerScoreState {
                        joined_mesh_at: old(self).entries()[score_key(topic, peer)].joined_mesh_at,
                        components,
                        last_decay_at: if now.nanos
                            > old(self).entries()[score_key(topic, peer)].last_decay_at.nanos {
                            now
                        } else {
                            old(self).entries()[score_key(topic, peer)].last_decay_at
                        },
                    }
                } else {
                    PeerScoreState { joined_mesh_at: None, components, last_decay_at: now }
                },
            ),
    {
        let key = SuppressedPeerKey { topic, peer };
        let state = match self.entries.get(&key) {
            Some(state) => PeerScoreState {
                joined_mesh_at: state.joined_mesh_at,
                components,
                last_decay_at: if now.nanos > state.last_decay_at.nanos { now } else { state.last_decay_at },
            },
            None => PeerScoreState { joined_mesh_at: None, components, last_decay_at: now },
        };
        self.entries.insert(key, state);
    }

    /// How long a peer has been in the mesh of a topic, at most `cap`.
    pub fn time_in_mesh(&self, topic: TopicId, peer: PeerId, now: Instant, cap: Duration) -> (r: Duration)
        requires
            self.wf(),
        ensures
            ({
                let known = self.entries().dom().contains(score_key(topic, peer));
                let joined = self.entries()[score_key(topic, peer)].joined_mesh_at;
                r == if known && joined is Some {
                    min_span(Duration { nanos: elapsed_between(now, joined->0) as u128 }, cap)
                } else {
                    Duration { nanos: 0 }
                }
            }),
    {
        match self.entries.get(&SuppressedPeerKey { topic, peer }) {
            Some(state) => match state.joined_mesh_at {
                Some(joined) => now.saturating_duration_since(joined).at_most(cap),
                None => Duration::zero(),
            },
            None => Duration::zero(),
        }
    }

    /// How many entries there are.
    pub fn tracked_peer_count(&self) -> (r: usize)
        requires
            self.wf(),
        ensures
            r == self.entries().dom().len(),
    {
        self.entries.len()
    }

    /// Which entries there are, each once.
    pub fn entry_keys(&self) -> (r: Vec<SuppressedPeerKey>)
        requires
            self.wf(),
        ensures
            r@.no_duplicates(),
            r@.to_set() == self.entries().dom(),
    {
        self.entries.keys()
    }

    /// Drops what is kept of a peer on every topic.
    pub fn forget_peer(&mut self, peer: &PeerId)
        requires
            old(self).wf(),
        ensures
            final(self).wf(),
            final(self).entries() == old(self).entries().restrict(Set::new(|k: SuppressedPeerKey| k.peer != *peer)),
    {
        let keys = self.entries.keys();
        let ghost all = self.entries@;
        let mut i: usize = 0;
        while i < keys.len()
            invariant
                i <= keys@.len(),
                keys@.no_duplicates(),
                keys@.to_set() == all.dom(),
                self.entries.wf(),
                forall|k: SuppressedPeerKey| #[trigger] self.entries@.dom().contains(k) ==> all.dom().contains(k)
                    && self.entries@[k] == all[k],
                forall|j: int|
                    0 <= j < i ==> self.entries@.dom().contains(#[trigger] keys@[j]) == (keys@[j].peer != *peer),
                forall|j: int| i <= j < keys@.len() ==> self.entries@.dom().contains(#[trigger] keys@[j]),
            decreases keys@.len() - i,
        {
            assert(keys@.to_set().contains(keys@[i as int]));
            let key = keys[i];
            if key.peer.same(peer) {
                self.entries.remove(&key);
            }
            i = i + 1;
        }
        proof {
            assert forall|k: SuppressedPeerKey| all.dom().contains(k) implies #[trigger] self.entries@.dom().contains(k)
                == (k.peer != *peer) by {
                assert(keys@.to_set().contains(k));
                assert(keys@[keys@.index_of(k)] == k);
            }
            assert(self.entries@ =~= all.restrict(Set::new(|k: SuppressedPeerKey| k.peer != *peer)));
        }
    }
}

/// An entry with its score, as a number that orders like it.
#[derive(Clone, Copy, Debug, PartialEq, Eq)]
pub struct RankedEntry {
    pub score: u64,
    pub topic: TopicId,
    pub peer: PeerId,
}

/// The lower score goes first, then the earlier topic, then the earlier peer.
pub open spec fn worse_or_same(a: RankedEntry, b: RankedEntry) -> bool {
    ||| a.score < b.score
    ||| a.score == b.score && bytes_before(a.topic.bytes, b.topic.bytes)
    ||| a.score == b.score && a.topic == b.topic && (a.peer == b.peer || bytes_before(a.peer.bytes, b.peer.bytes))
}

fn goes_before(a: &RankedEntry, b: &RankedEntry) -> (r: bool)
    ensures
        r == worse_or_same(*a, *b),
{
    if a.score != b.score {
        return a.score < b.score;
    }
    if !a.topic.same(&b.topic) {
        return is_before(&a.topic.bytes, &b.topic.bytes);
    }
    proof {
        crate::order::bytes_before_is_total(a.topic.bytes, a.topic.bytes);
    }
    a.peer.same(&b.peer) || is_before(&a.peer.bytes, &b.peer.bytes)
}

proof fn lemma_worse_carries_over(a: RankedEntry, b: RankedEntry, c: RankedEntry)
    requires
        worse_or_same(a, b),
        worse_or_same(b, c),
    ensures
        worse_or_same(a, c),
{
    if bytes_before(a.topic.bytes, b.topic.bytes) && bytes_before(b.topic.bytes, c.topic.bytes) {
        crate::order::bytes_before_carries_over(a.topic.bytes, b.topic.bytes, c.topic.bytes);
    }
    if bytes_before(a.peer.bytes, b.peer.bytes) && bytes_before(b.peer.bytes, c.peer.bytes) {
        crate::order::bytes_before_carries_over(a.peer.bytes, b.peer.bytes, c.peer.bytes);
    }
}

proof fn lemma_worse_is_total(a: RankedEntry, b: RankedEntry)
    ensures
        worse_or_same(a, b) || worse_or_same(b, a),
{
    crate::order::bytes_before_is_total(a.topic.bytes, b.topic.bytes);
    crate::order::bytes_before_is_total(a.peer.bytes, b.peer.bytes);
}

/// Entries in the order in which they are reported.
pub open spec fn worst_come_first(entries: Seq<RankedEntry>) -> bool {
    forall|i: int, j: int| 0 <= i < j < entries.len() ==> worse_or_same(#[trigger] entries[i], #[trigger] entries[j])
}

/// The entries in the order in which they are reported: the worst first.
pub fn worst_first(entries: &Vec<RankedEntry>) -> (r: Vec<RankedEntry>)
    ensures
        worst_come_first(r@),
        r@.to_multiset() == entries@.to_multiset(),
{
    let mut r: Vec<RankedEntry> = Vec::new();
    let mut i: usize = 0;
    assert(entries@.take(0) =~= Seq::empty());
    while i < entries.len()
        invariant
            i <= entries@.len(),
            r@.len() == i,
            worst_come_first(r@),
            r@.to_multiset() =~= entries@.take(i as int).to_multiset(),
        decreases entries@.len() - i,
    {
        let entry = entries[i];
        let mut at: usize = 0;
        while at < r.len() && goes_before(&r[at], &entry)
            invariant
                at <= r@.len(),
                forall|j: int| 0 <= j < at ==> worse_or_same(#[trigger] r@[j], entry),
            decreases r@.len() - at,
        {
            at = at + 1;
        }
        let ghost before = r@;
        r.insert(at, entry);
        proof {
            broadcast use vstd::seq_lib::group_to_multiset_ensures;

            assert(r@ == before.insert(at as int, entry));
            assert(entries@.take(i + 1) =~= entries@.take(i as int).push(entry));
            if at < before.len() {
                lemma_worse_is_total(before[at as int], entry);
            }
            assert forall|a: int, b: int| 0 <= a < b < r@.len() implies worse_or_same(#[trigger] r@[a], #[trigger] r@[b]) by {
                if b < at {
                    assert(r@[a] == before[a] && r@[b] == before[b]);
                } else if b == at {
                    assert(r@[a] == before[a]);
                } else if a == at {
                    assert(r@[b] == before[b - 1]);
                    if b - 1 > at {
                        lemma_worse_carries_over(entry, before[at as int], before[b - 1]);
                    }
                } else if a < at {
                    assert(r@[a] == before[a] && r@[b] == before[b - 1]);
                } else {
                    assert(r@[a] == before[a - 1] && r@[b] == before[b - 1]);
                }
            }
        }
        i = i + 1;
    }
    assert(entries@.take(entries@.len() as int) =~= entries@);
    r
}

/// An event on one topic leaves every other topic alone, and every other peer.
pub proof fn scores_are_isolated<C>(
    before: Map<SuppressedPeerKey, PeerScoreState<C>>,
    topic: TopicId,
    peer: PeerId,
    state: PeerScoreState<C>,
    other_topic: TopicId,
    other_peer: PeerId,
)
    requires
        other_topic != topic || other_peer != peer,
    ensures
        before.insert(score_key(topic, peer), state).dom().contains(score_key(other_topic, other_peer))
            == before.dom().contains(score_key(other_topic, other_peer)),
        before.dom().contains(score_key(other_topic, other_peer)) ==> before.insert(
            score_key(topic, peer),
            state,
        )[score_key(other_topic, other_peer)] == before[score_key(other_topic, other_peer)],
{
}

/// The order of the reported entries: a lower score goes before a higher one, and of equal scores
/// the earlier topic, and then the earlier peer.
pub proof fn lower_scores_come_first(entries: Seq<RankedEntry>, i: int, j: int)
    requires
        worst_come_first(entries),
        0 <= i < j < entries.len(),
    ensures
        entries[i].score <= entries[j].score,
        entries[i].score == entries[j].score ==> entries[i].topic == entries[j].topic || bytes_before(
            entries[i].topic.bytes,
            entries[j].topic.bytes,
        ),
        entries[i].score == entries[j].score && entries[i].topic == entries[j].topic ==> entries[i].peer
            == entries[j].peer || bytes_before(entries[i].peer.bytes, entries[j].peer.bytes),
{
    crate::order::bytes_before_is_total(entries[i].topic.bytes, entries[i].topic.bytes);
}

} // verus!
