//! Reports for operators: the suppressions by topic and by peer, the scores and the caches.

use vstd::prelude::*;

use crate::cache::{bytes_held, oldest_secs, CacheStatsSnapshot};
use crate::collections::{IdMap, IdSet};
use crate::ids::{Identifier, PeerId, TopicId};
use crate::mesh::MeshScores;
use crate::order::{ascending_ids, ids_in_order};
use crate::score::PeerScore;
use crate::stats::{SuppressedPeerKey, SuppressedPeerSnapshot, SuppressionState};
use crate::time::Instant;
use crate::topic::{score_or_new, TopicState};
use crate::topics::{known_to, topics_wf};
use crate::upkeep::PeerRole;

verus! {

/// Some report is of this topic.
pub open spec fn on_topic(rows: Seq<SuppressedPeerSnapshot>, topic: TopicId) -> bool {
    exists|i: int| 0 <= i < rows.len() && (#[trigger] rows[i]).topic == topic
}

/// Some report is of this peer.
pub open spec fn of_peer(rows: Seq<SuppressedPeerSnapshot>, peer: PeerId) -> bool {
    exists|i: int| 0 <= i < rows.len() && (#[trigger] rows[i]).peer_id == peer
}

/// Some report is of this peer on this topic.
pub open spec fn of_peer_on_topic(rows: Seq<SuppressedPeerSnapshot>, topic: TopicId, peer: PeerId) -> bool {
    exists|i: int| 0 <= i < rows.len() && (#[trigger] rows[i]).topic == topic && rows[i].peer_id == peer
}

fn reported_topics(rows: &Vec<SuppressedPeerSnapshot>) -> (r: Vec<[u8; 32]>)
    ensures
        ascending_ids(r@),
        forall|t: TopicId| #[trigger] r@.contains(t.bytes) <==> on_topic(rows@, t),
{
    let mut set: IdSet<[u8; 32]> = IdSet::new();
    let mut i: usize = 0;
    while i < rows.len()
        invariant
            i <= rows@.len(),
            set.wf(),
            forall|t: TopicId| #[trigger] set@.contains(t.bytes) <==> on_topic(rows@.take(i as int), t),
        decreases rows@.len() - i,
    {
        set.insert(rows[i].topic.bytes);
        proof {
            let next = rows@.take(i + 1);
            assert forall|t: TopicId| #[trigger] set@.contains(t.bytes) <==> on_topic(next, t) by {
                if on_topic(rows@.take(i as int), t) {
                    let k = choose|k: int|
                        0 <= k < rows@.take(i as int).len() && (#[trigger] rows@.take(i as int)[k]).topic == t;
                    assert(next[k].topic == t);
                }
                if on_topic(next, t) {
                    let k = choose|k: int| 0 <= k < next.len() && (#[trigger] next[k]).topic == t;
                    if k < i {
                        assert(rows@.take(i as int)[k].topic == t);
                    }
                }
                assert(next[i as int] == rows@[i as int]);
                assert(t.bytes == rows@[i as int].topic.bytes ==> t == rows@[i as int].topic);
            }
        }
        i = i + 1;
    }
    assert(rows@.take(rows@.len() as int) =~= rows@);
    let listed = set.to_vec();
    let r = ids_in_order(&listed);
    proof {
        assert forall|t: TopicId| #[trigger] r@.contains(t.bytes) <==> on_topic(rows@, t) by {
            assert(r@.to_set().contains(t.bytes) == r@.contains(t.bytes));
            assert(listed@.to_set().contains(t.bytes) == listed@.contains(t.bytes));
        }
    }
    r
}

/// The peers that are reported on a topic, in ascending order and each once.
pub fn reported_peers_on(rows: &Vec<SuppressedPeerSnapshot>, topic: TopicId) -> (r: Vec<PeerId>)
    ensures
        ascending_ids(r@.map_values(|p: PeerId| p.bytes)),
        forall|p: PeerId| #[trigger] r@.contains(p) <==> of_peer_on_topic(rows@, topic, p),
{
    let mut set: IdSet<[u8; 32]> = IdSet::new();
    let mut i: usize = 0;
    while i < rows.len()
        invariant
            i <= rows@.len(),
            set.wf(),
            forall|p: PeerId| #[trigger] set@.contains(p.bytes) <==> of_peer_on_topic(rows@.take(i as int), topic, p),
        decreases rows@.len() - i,
    {
        if rows[i].topic.same(&topic) {
            set.insert(rows[i].peer_id.bytes);
        }
        proof {
            let here = rows@.take(i as int);
            let next = rows@.take(i + 1);
            assert forall|p: PeerId| #[trigger] set@.contains(p.bytes) <==> of_peer_on_topic(next, topic, p) by {
                if of_peer_on_topic(here, topic, p) {
                    let k = choose|k: int|
                        0 <= k < here.len() && (#[trigger] here[k]).topic == topic && here[k].peer_id == p;
                    assert(next[k].topic == topic && next[k].peer_id == p);
                }
                if of_peer_on_topic(next, topic, p) {
                    let k = choose|k: int|
                        0 <= k < next.len() && (#[trigger] next[k]).topic == topic && next[k].peer_id == p;
                    if k < i {
                        assert(here[k].topic == topic && here[k].peer_id == p);
                    }
                }
                assert(next[i as int] == rows@[i as int]);
                assert(p.bytes == rows@[i as int].peer_id.bytes ==> p == rows@[i as int].peer_id);
            }
        }
        i = i + 1;
    }
    assert(rows@.take(rows@.len() as int) =~= rows@);
    let listed = set.to_vec();
    let ordered = ids_in_order(&listed);
    let mut r: Vec<PeerId> = Vec::new();
    let mut n: usize = 0;
    while n < ordered.len()
        invariant
            n <= ordered@.len(),
            r@.len() == n,
            forall|j: int| 0 <= j < n ==> (#[trigger] r@[j]).bytes == ordered@[j],
        decreases ordered@.len() - n,
    {
        r.push(PeerId { bytes: ordered[n] });
        n = n + 1;
    }
    proof {
        assert(r@.map_values(|p: PeerId| p.bytes) =~= ordered@);
        assert forall|p: PeerId| #[trigger] r@.contains(p) <==> of_peer_on_topic(rows@, topic, p) by {
            assert(ordered@.to_set().contains(p.bytes) == ordered@.contains(p.bytes));
            assert(listed@.to_set().contains(p.bytes) == listed@.contains(p.bytes));
            if r@.contains(p) {
                let j = r@.index_of(p);
                assert(ordered@[j] == p.bytes);
            }
            if ordered@.contains(p.bytes) {
                let j = ordered@.index_of(p.bytes);
                assert(r@[j].bytes == p.bytes);
                assert(r@[j] == p);
            }
        }
    }
    r
}

/// The suppressed peers of every topic that has some, in ascending order.
pub fn build_suppressed_peers_by_topic(rows: &Vec<SuppressedPeerSnapshot>) -> (r: Vec<(TopicId, Vec<PeerId>)>)
    ensures
        ascending_ids(r@.map_values(|e: (TopicId, Vec<PeerId>)| e.0.bytes)),
        forall|t: TopicId| on_topic(rows@, t) <==> exists|i: int| 0 <= i < r@.len() && (#[trigger] r@[i]).0 == t,
        forall|i: int|
            0 <= i < r@.len() ==> ascending_ids((#[trigger] r@[i]).1@.map_values(|p: PeerId| p.bytes)),
        forall|i: int, p: PeerId|
            0 <= i < r@.len() ==> ((#[trigger] (r@[i]).1@.contains(p)) <==> of_peer_on_topic(rows@, r@[i].0, p)),
{
    let topics = reported_topics(rows);
    let mut r: Vec<(TopicId, Vec<PeerId>)> = Vec::new();
    let mut i: usize = 0;
    while i < topics.len()
        invariant
            i <= topics@.len(),
            r@.len() == i,
            forall|j: int| 0 <= j < i ==> (#[trigger] r@[j]).0.bytes == topics@[j],
            forall|j: int| 0 <= j < i ==> ascending_ids((#[trigger] r@[j]).1@.map_values(|p: PeerId| p.bytes)),
            forall|j: int, p: PeerId|
                0 <= j < i ==> ((#[trigger] (r@[j]).1@.contains(p)) <==> of_peer_on_topic(rows@, r@[j].0, p)),
        decreases topics@.len() - i,
    {
        let topic = TopicId { bytes: topics[i] };
        let peers = reported_peers_on(rows, topic);
        r.push((topic, peers));
        i = i + 1;
    }
    proof {
        assert(r@.map_values(|e: (TopicId, Vec<PeerId>)| e.0.bytes) =~= topics@);
        assert forall|t: TopicId| on_topic(rows@, t) <==> exists|k: int| 0 <= k < r@.len() && (#[trigger] r@[k]).0
            == t by {
            assert(topics@.contains(t.bytes) <==> on_topic(rows@, t));
            if on_topic(rows@, t) {
                let k = topics@.index_of(t.bytes);
                assert(r@[k].0.bytes == t.bytes);
                assert(r@[k].0 == t);
            }
            if exists|k: int| 0 <= k < r@.len() && (#[trigger] r@[k]).0 == t {
                let k = choose|k: int| 0 <= k < r@.len() && (#[trigger] r@[k]).0 == t;
                assert(topics@[k] == t.bytes);
            }
        }
    }
    r
}

/// How a peer stands over all topics.
#[derive(Clone, Copy, Debug, PartialEq, Eq, Structural)]
pub enum AdmissionState {
    Alive,
    Cooled,
    RecoveryProbe,
    RecoveryReady,
}

impl AdmissionState {
    pub open spec fn name(self) -> Seq<char> {
        match self {
            AdmissionState::Alive => "alive"@,
            AdmissionState::Cooled => "cooled"@,
            AdmissionState::RecoveryProbe => "recovery_probe"@,
            AdmissionState::RecoveryReady => "recovery_ready"@,
        }
    }

    pub fn label(self) -> (r: &'static str)
        ensures
            r@ == self.name(),
    {
        match self {
            AdmissionState::Alive => "alive",
            AdmissionState::Cooled => "cooled",
            AdmissionState::RecoveryProbe => "recovery_probe",
            AdmissionState::RecoveryReady => "recovery_ready",
        }
    }
}

/// How many admissions of each priority a peer holds.
#[derive(Clone, Copy, Debug, PartialEq, Eq, Structural)]
pub struct QueueDepths {
    pub bulk: usize,
    pub normal: usize,
    pub critical: usize,
}

/// How a peer stands over all topics, in numbers.
#[derive(Clone, Copy, Debug, PartialEq, Eq, Structural)]
pub struct AdmissionStateSnapshot {
    pub state: AdmissionState,
    pub suppressed_topics_count: usize,
    pub cooled_topics_count: usize,
    pub recovery_probe_topics_count: usize,
    pub recovery_ready_topics_count: usize,
    /// Absent where the peer holds no admission.
    pub priority_queue_depths: Option<QueueDepths>,
}

/// The number of reports of a peer that are in some state, or in any.
pub open spec fn count_rows(rows: Seq<SuppressedPeerSnapshot>, peer: PeerId, state: Option<SuppressionState>) -> nat
    decreases rows.len(),
{
    if rows.len() == 0 {
        0
    } else {
        let before = count_rows(rows.drop_last(), peer, state);
        let row = rows.last();
        if row.peer_id == peer && (state is None || row.state == state->0) { before + 1 } else { before }
    }
}

/// How a peer with so many suppressions of each sort stands.
pub open spec fn standing(cooled: nat, probes: nat, ready: nat) -> AdmissionState {
    if cooled > 0 {
        AdmissionState::Cooled
    } else if probes > 0 {
        AdmissionState::RecoveryProbe
    } else if ready > 0 {
        AdmissionState::RecoveryReady
    } else {
        AdmissionState::Alive
    }
}

/// How a peer stands by some reports.
pub open spec fn standing_of(rows: Seq<SuppressedPeerSnapshot>, peer: PeerId, snapshot: AdmissionStateSnapshot) -> bool {
    let cooled = count_rows(rows, peer, Some(SuppressionState::Cooldown));
    let probes = count_rows(rows, peer, Some(SuppressionState::RecoveryProbe));
    let ready = count_rows(rows, peer, Some(SuppressionState::RecoveryReady));
    &&& snapshot.suppressed_topics_count == count_rows(rows, peer, None)
    &&& snapshot.cooled_topics_count == cooled
    &&& snapshot.recovery_probe_topics_count == probes
    &&& snapshot.recovery_ready_topics_count == ready
    &&& snapshot.state == standing(cooled, probes, ready)
}

fn standing_at(cooled: usize, probes: usize, ready: usize) -> (r: AdmissionState)
    ensures
        r == standing(cooled as nat, probes as nat, ready as nat),
{
    if cooled > 0 {
        AdmissionState::Cooled
    } else if probes > 0 {
        AdmissionState::RecoveryProbe
    } else if ready > 0 {
        AdmissionState::RecoveryReady
    } else {
        AdmissionState::Alive
    }
}

/// How every reported peer stands over all topics.
pub fn build_admission_state_by_peer(rows: &Vec<SuppressedPeerSnapshot>) -> (r: IdMap<PeerId, AdmissionStateSnapshot>)
    ensures
        r.wf(),
        forall|p: PeerId| #[trigger] r@.dom().contains(p) <==> of_peer(rows@, p),
        forall|p: PeerId| #[trigger]
            r@.dom().contains(p) ==> standing_of(rows@, p, r@[p]) && r@[p].priority_queue_depths is None,
{
    let mut r: IdMap<PeerId, AdmissionStateSnapshot> = IdMap::new();
    let mut i: usize = 0;
    while i < rows.len()
        invariant
            i <= rows@.len(),
            r.wf(),
            forall|p: PeerId| #[trigger] r@.dom().contains(p) <==> of_peer(rows@.take(i as int), p),
            forall|p: PeerId| #[trigger]
                r@.dom().contains(p) ==> standing_of(rows@.take(i as int), p, r@[p])
                    && r@[p].priority_queue_depths is None && r@[p].suppressed_topics_count <= i
                    && r@[p].cooled_topics_count <= i && r@[p].recovery_probe_topics_count <= i
                    && r@[p].recovery_ready_topics_count <= i,
        decreases rows@.len() - i,
    {
        let row = rows[i];
        let ghost here = rows@.take(i as int);
        let ghost next = rows@.take(i + 1);
        let ghost before = r@;
        let mut entry = match r.get(&row.peer_id) {
            Some(entry) => *entry,
            None => AdmissionStateSnapshot {
                state: AdmissionState::Alive,
                suppressed_topics_count: 0,
                cooled_topics_count: 0,
                recovery_probe_topics_count: 0,
                recovery_ready_topics_count: 0,
                priority_queue_depths: None,
            },
        };
        proof {
            assert(next.drop_last() =~= here);
            assert(next.last() == row);
            if !before.dom().contains(row.peer_id) {
                lemma_no_rows(here, row.peer_id, None);
                lemma_no_rows(here, row.peer_id, Some(SuppressionState::Cooldown));
                lemma_no_rows(here, row.peer_id, Some(SuppressionState::RecoveryProbe));
                lemma_no_rows(here, row.peer_id, Some(SuppressionState::RecoveryReady));
            }
        }
        entry.suppressed_topics_count = entry.suppressed_topics_count + 1;
        match row.state {
            SuppressionState::RecoveryProbe => {
                entry.recovery_probe_topics_count = entry.recovery_probe_topics_count + 1;
            },
            SuppressionState::RecoveryReady => {
                entry.recovery_ready_topics_count = entry.recovery_ready_topics_count + 1;
            },
            SuppressionState::Cooldown => {
                entry.cooled_topics_count = entry.cooled_topics_count + 1;
            },
        }
        entry.state =
        standing_at(
            entry.cooled_topics_count,
            entry.recovery_probe_topics_count,
            entry.recovery_ready_topics_count,
        );
        r.insert(row.peer_id, entry);
        proof {
            assert forall|p: PeerId| #[trigger] r@.dom().contains(p) <==> of_peer(next, p) by {
                if of_peer(here, p) {
                    let k = choose|k: int| 0 <= k < here.len() && (#[trigger] here[k]).peer_id == p;
                    assert(next[k].peer_id == p);
                }
                if of_peer(next, p) {
                    let k = choose|k: int| 0 <= k < next.len() && (#[trigger] next[k]).peer_id == p;
                    if k < i {
                        assert(here[k].peer_id == p);
                    }
                }
                assert(next[i as int] == row);
            }
        }
        i = i + 1;
    }
    assert(rows@.take(rows@.len() as int) =~= rows@);
    r
}

proof fn lemma_no_rows(rows: Seq<SuppressedPeerSnapshot>, peer: PeerId, state: Option<SuppressionState>)
    requires
        !of_peer(rows, peer),
    ensures
        count_rows(rows, peer, state) == 0,
    decreases rows.len(),
{
    if rows.len() > 0 {
        let rest = rows.drop_last();
        assert(!of_peer(rest, peer)) by {
            if of_peer(rest, peer) {
                let k = choose|k: int| 0 <= k < rest.len() && (#[trigger] rest[k]).peer_id == peer;
                assert(rows[k].peer_id == peer);
            }
        }
        lemma_no_rows(rest, peer, state);
        assert(rows[rows.len() - 1].peer_id != peer);
    }
}

/// Adds the admissions that peers hold to how they stand.
pub fn merge_admission_per_peer_state(
    existing: &mut IdMap<PeerId, AdmissionStateSnapshot>,
    per_peer: &IdMap<PeerId, QueueDepths>,
)
    requires
        old(existing).wf(),
        per_peer.wf(),
    ensures
        final(existing).wf(),
        final(existing)@.dom() == old(existing)@.dom().union(per_peer@.dom()),
        forall|p: PeerId| #[trigger]
            final(existing)@.dom().contains(p) ==> final(existing)@[p] == (AdmissionStateSnapshot {
                priority_queue_depths: if per_peer@.dom().contains(p) {
                    Some(per_peer@[p])
                } else {
                    old(existing)@[p].priority_queue_depths
                },
                ..(if old(existing)@.dom().contains(p) {
                    old(existing)@[p]
                } else {
                    AdmissionStateSnapshot {
                        state: AdmissionState::Alive,
                        suppressed_topics_count: 0,
                        cooled_topics_count: 0,
                        recovery_probe_topics_count: 0,
                        recovery_ready_topics_count: 0,
                        priority_queue_depths: None,
                    }
                })
            }),
{
    let peers = per_peer.keys();
    let ghost all = existing@;
    let mut i: usize = 0;
    assert(all.dom() =~= all.dom().union(peers@.take(0).to_set()));
    while i < peers.len()
        invariant
            i <= peers@.len(),
            per_peer.wf(),
            peers@.no_duplicates(),
            peers@.to_set() == per_peer@.dom(),
            all == old(existing)@,
            existing.wf(),
            existing@.dom() == all.dom().union(peers@.take(i as int).to_set()),
            forall|p: PeerId| #[trigger]
                existing@.dom().contains(p) ==> existing@[p] == (AdmissionStateSnapshot {
                    priority_queue_depths: if peers@.take(i as int).contains(p) {
                        Some(per_peer@[p])
                    } else {
                        all[p].priority_queue_depths
                    },
                    ..(if all.dom().contains(p) {
                        all[p]
                    } else {
                        AdmissionStateSnapshot {
                            state: AdmissionState::Alive,
                            suppressed_topics_count: 0,
                            cooled_topics_count: 0,
                            recovery_probe_topics_count: 0,
                            recovery_ready_topics_count: 0,
                            priority_queue_depths: None,
                        }
                    })
                }),
        decreases peers@.len() - i,
    {
        let peer = peers[i];
        proof {
            assert(peers@.to_set().contains(peer));
            assert(peers@.take(i + 1) =~= peers@.take(i as int).insert(i as int, peer));
            crate::order::lemma_insert_members(peers@.take(i as int), i as int, peer);
            assert forall|p: PeerId| #[trigger] peers@.take(i + 1).contains(p) == (peers@.take(i as int).contains(p)
                || p == peer) by {
                assert(peers@.take(i + 1).to_set().contains(p) == peers@.take(i as int).to_set().insert(
                    peer,
                ).contains(p));
            }
            assert(!peers@.take(i as int).contains(peer));
        }
        if let Some(depths) = per_peer.get(&peer) {
            let mut entry = match existing.get(&peer) {
                Some(entry) => *entry,
                None => AdmissionStateSnapshot {
                    state: AdmissionState::Alive,
                    suppressed_topics_count: 0,
                    cooled_topics_count: 0,
                    recovery_probe_topics_count: 0,
                    recovery_ready_topics_count: 0,
                    priority_queue_depths: None,
                },
            };
            entry.priority_queue_depths = Some(*depths);
            existing.insert(peer, entry);
        }
        assert(existing@.dom() =~= all.dom().union(peers@.take(i + 1).to_set()));
        i = i + 1;
    }
    proof {
        assert(peers@.take(peers@.len() as int) =~= peers@);
        assert forall|p: PeerId| #[trigger] per_peer@.dom().contains(p) == peers@.contains(p) by {
            assert(peers@.to_set().contains(p) == peers@.contains(p));
        }
    }
}

/// What is reported of a peer's score on a topic; `S` holds its components.
#[derive(Clone, Copy, Debug)]
pub struct PeerScoreSnapshot<S> {
    pub peer_id: PeerId,
    pub topic: TopicId,
    pub role: PeerRole,
    pub scores: S,
    pub eager_eligible: bool,
}

/// What is reported of a peer's score on a topic, with its suppression.
#[derive(Clone, Copy, Debug)]
pub struct PeerScoreBreakdownSnapshot<S> {
    pub role: PeerRole,
    pub scores: S,
    pub eager_eligible: bool,
    pub suppression_state: Option<SuppressionState>,
    pub recent_timeout_count: Option<usize>,
    pub cooldown_ms: Option<u64>,
    pub last_cool_at_unix_ms: Option<u64>,
}

/// The last report of a peer on a topic, if there is one.
pub open spec fn last_report(rows: Seq<SuppressedPeerSnapshot>, topic: TopicId, peer: PeerId) -> Option<
    SuppressedPeerSnapshot,
>
    decreases rows.len(),
{
    if rows.len() == 0 {
        None
    } else if rows.last().topic == topic && rows.last().peer_id == peer {
        Some(rows.last())
    } else {
        last_report(rows.drop_last(), topic, peer)
    }
}

/// The last report of a peer on a topic, if there is one.
pub fn find_report(rows: &Vec<SuppressedPeerSnapshot>, topic: TopicId, peer: PeerId) -> (r: Option<
    SuppressedPeerSnapshot,
>)
    ensures
        r == last_report(rows@, topic, peer),
{
    let mut n: usize = rows.len();
    assert(rows@.take(rows@.len() as int) =~= rows@);
    while n > 0
        invariant
            n <= rows@.len(),
            last_report(rows@, topic, peer) == last_report(rows@.take(n as int), topic, peer),
        decreases n,
    {
        let row = rows[n - 1];
        proof {
            assert(rows@.take(n as int).last() == row);
            assert(rows@.take(n as int).drop_last() =~= rows@.take(n - 1));
        }
        if row.topic.same(&topic) && row.peer_id.same(&peer) {
            return Some(row);
        }
        n = n - 1;
    }
    None
}

/// A score with its suppression.
pub open spec fn breakdown_of<S>(score: PeerScoreSnapshot<S>, report: Option<SuppressedPeerSnapshot>) -> PeerScoreBreakdownSnapshot<
    S,
> {
    PeerScoreBreakdownSnapshot {
        role: score.role,
        scores: score.scores,
        eager_eligible: score.eager_eligible,
        suppression_state: match report {
            Some(row) => Some(row.state),
            None => None,
        },
        recent_timeout_count: match report {
            Some(row) => Some(row.recent_timeout_count),
            None => None,
        },
        cooldown_ms: match report {
            Some(row) => Some(row.cooldown_ms),
            None => None,
        },
        last_cool_at_unix_ms: match report {
            Some(row) => Some(row.last_suppressed_unix_ms),
            None => None,
        },
    }
}

/// The scores by peer and topic, each with its suppression; a later score takes the place of an
/// earlier one.
pub open spec fn scores_by_key<S>(
    scores: Seq<PeerScoreSnapshot<S>>,
    rows: Seq<SuppressedPeerSnapshot>,
) -> Map<SuppressedPeerKey, PeerScoreBreakdownSnapshot<S>>
    decreases scores.len(),
{
    if scores.len() == 0 {
        Map::empty()
    } else {
        let score = scores.last();
        scores_by_key(scores.drop_last(), rows).insert(
            SuppressedPeerKey { topic: score.topic, peer: score.peer_id },
            breakdown_of(score, last_report(rows, score.topic, score.peer_id)),
        )
    }
}

/// The scores by peer and topic, each with its suppression.
pub fn build_peer_scores_by_topic<S: Copy>(
    scores: &Vec<PeerScoreSnapshot<S>>,
    suppressed: &Vec<SuppressedPeerSnapshot>,
) -> (r: IdMap<SuppressedPeerKey, PeerScoreBreakdownSnapshot<S>>)
    ensures
        r.wf(),
        r@ == scores_by_key(scores@, suppressed@),
{
    let mut r: IdMap<SuppressedPeerKey, PeerScoreBreakdownSnapshot<S>> = IdMap::new();
    let mut i: usize = 0;
    assert(scores@.take(0) =~= Seq::empty());
    while i < scores.len()
        invariant
            i <= scores@.len(),
            r.wf(),
            r@ == scores_by_key(scores@.take(i as int), suppressed@),
        decreases scores@.len() - i,
    {
        let topic = scores[i].topic;
        let peer = scores[i].peer_id;
        proof {
            assert(scores@.take(i + 1).drop_last() =~= scores@.take(i as int));
            assert(scores@.take(i + 1).last() == scores@[i as int]);
        }
        let report = find_report(suppressed, topic, peer);
        let breakdown = match report {
            Some(row) => PeerScoreBreakdownSnapshot {
                role: scores[i].role,
                scores: scores[i].scores,
                eager_eligible: scores[i].eager_eligible,
                suppression_state: Some(row.state),
                recent_timeout_count: Some(row.recent_timeout_count),
                cooldown_ms: Some(row.cooldown_ms),
                last_cool_at_unix_ms: Some(row.last_suppressed_unix_ms),
            },
            None => PeerScoreBreakdownSnapshot {
                role: scores[i].role,
                scores: scores[i].scores,
                eager_eligible: scores[i].eager_eligible,
                suppression_state: None,
                recent_timeout_count: None,
                cooldown_ms: None,
                last_cool_at_unix_ms: None,
            },
        };
        r.insert(SuppressedPeerKey { topic, peer }, breakdown);
        i = i + 1;
    }
    assert(scores@.take(scores@.len() as int) =~= scores@);
    r
}

/// The cache of one topic at one moment.
#[derive(Clone, Copy, Debug, PartialEq, Eq)]
pub struct TopicCacheStatsSnapshot {
    pub topic: TopicId,
    pub cache: CacheStatsSnapshot,
}

/// What is reported of a topic's cache.
pub open spec fn cache_reported(state: TopicState, now: Instant, cache: CacheStatsSnapshot) -> bool {
    let held = state.message_cache;
    &&& cache.msg_count == held.order().len()
    &&& cache.total_bytes == bytes_held(held.order(), held.messages())
    &&& cache.oldest_age_secs == (if oldest_secs(held.order(), now) <= u64::MAX {
        oldest_secs(held.order(), now)
    } else {
        u64::MAX as nat
    })
    &&& cache.evicted_by_age == held.evicted_by_age()
    &&& cache.evicted_by_bytes == held.evicted_by_bytes()
    &&& cache.evicted_by_count == held.evicted_by_count()
}

/// The caches of all topics, in the order of the topics.
pub fn build_topic_cache_snapshots(topics: &IdMap<TopicId, TopicState>, now: Instant) -> (r: Vec<
    TopicCacheStatsSnapshot,
>)
    requires
        topics_wf(*topics),
    ensures
        r@.len() == topics@.dom().len(),
        ascending_ids(r@.map_values(|s: TopicCacheStatsSnapshot| s.topic.bytes)),
        forall|i: int|
            0 <= i < r@.len() ==> topics@.dom().contains((#[trigger] r@[i]).topic) && cache_reported(
                topics@[r@[i].topic],
                now,
                r@[i].cache,
            ),
{
    let keys = topics.keys();
    let mut ids: Vec<[u8; 32]> = Vec::new();
    let mut i: usize = 0;
    while i < keys.len()
        invariant
            i <= keys@.len(),
            ids@.len() == i,
            forall|j: int| 0 <= j < i ==> #[trigger] ids@[j] == keys@[j].bytes,
        decreases keys@.len() - i,
    {
        ids.push(keys[i].bytes);
        i = i + 1;
    }
    proof {
        assert forall|a: int, b: int| 0 <= a < b < ids@.len() implies ids@[a] != ids@[b] by {
            if ids@[a] == ids@[b] {
                assert(keys@[a] == keys@[b]);
            }
        }
    }
    let ordered = ids_in_order(&ids);
    let mut r: Vec<TopicCacheStatsSnapshot> = Vec::new();
    let mut n: usize = 0;
    while n < ordered.len()
        invariant
            n <= ordered@.len(),
            topics_wf(*topics),
            ordered@.to_set() == ids@.to_set(),
            ids@.len() == keys@.len(),
            keys@.to_set() == topics@.dom(),
            forall|j: int| 0 <= j < keys@.len() ==> #[trigger] ids@[j] == keys@[j].bytes,
            r@.len() == n,
            forall|j: int| 0 <= j < n ==> (#[trigger] r@[j]).topic.bytes == ordered@[j],
            forall|j: int|
                0 <= j < n ==> topics@.dom().contains((#[trigger] r@[j]).topic) && cache_reported(
                    topics@[r@[j].topic],
                    now,
                    r@[j].cache,
                ),
        decreases ordered@.len() - n,
    {
        let topic = TopicId { bytes: ordered[n] };
        proof {
            assert(ordered@.to_set().contains(ordered@[n as int]));
            assert(ids@.contains(ordered@[n as int]));
            let j = ids@.index_of(ordered@[n as int]);
            assert(keys@[j] == topic);
            assert(keys@.to_set().contains(topic));
        }
        if let Some(state) = topics.get(&topic) {
            let cache = state.message_cache.stats_at(now);
            r.push(TopicCacheStatsSnapshot { topic, cache });
        }
        n = n + 1;
    }
    assert(r@.map_values(|s: TopicCacheStatsSnapshot| s.topic.bytes) =~= ordered@);
    r
}

impl TopicState {
    /// Every peer that the topic knows, in ascending order.
    pub fn known_peers(&self) -> (r: Vec<PeerId>)
        requires
            self.wf(),
        ensures
            ascending_ids(r@.map_values(|p: PeerId| p.bytes)),
            forall|p: PeerId| #[trigger] r@.contains(p) <==> known_to(*self, p),
    {
        let mut set: IdSet<[u8; 32]> = IdSet::new();
        let lists = (
            self.eager_peers.to_vec(),
            self.lazy_peers.to_vec(),
            self.peer_cooling.keys(),
            self.peer_scores.keys(),
        );
        add_bytes(&mut set, &lists.0);
        add_bytes(&mut set, &lists.1);
        add_bytes(&mut set, &lists.2);
        add_bytes(&mut set, &lists.3);
        let listed = set.to_vec();
        let ordered = ids_in_order(&listed);
        let mut r: Vec<PeerId> = Vec::new();
        let mut n: usize = 0;
        while n < ordered.len()
            invariant
                n <= ordered@.len(),
                r@.len() == n,
                forall|j: int| 0 <= j < n ==> (#[trigger] r@[j]).bytes == ordered@[j],
            decreases ordered@.len() - n,
        {
            r.push(PeerId { bytes: ordered[n] });
            n = n + 1;
        }
        proof {
            assert(r@.map_values(|p: PeerId| p.bytes) =~= ordered@);
            assert forall|p: PeerId| #[trigger] r@.contains(p) <==> known_to(*self, p) by {
                assert(ordered@.to_set().contains(p.bytes) == ordered@.contains(p.bytes));
                assert(listed@.to_set().contains(p.bytes) == listed@.contains(p.bytes));
                assert((lists.0)@.to_set().contains(p) == (lists.0)@.contains(p));
                assert((lists.1)@.to_set().contains(p) == (lists.1)@.contains(p));
                assert((lists.2)@.to_set().contains(p) == (lists.2)@.contains(p));
                assert((lists.3)@.to_set().contains(p) == (lists.3)@.contains(p));
                assert(set@.contains(p.bytes) <==> known_to(*self, p));
                if r@.contains(p) {
                    let j = r@.index_of(p);
                    assert(ordered@[j] == p.bytes);
                }
                if ordered@.contains(p.bytes) {
                    let j = ordered@.index_of(p.bytes);
                    assert(r@[j].bytes == p.bytes);
                    assert(r@[j] == p);
                }
            }
        }
        r
    }

    /// A peer may become eager for its score.
    pub open spec fn score_eligible(&self, peer: PeerId, now: Instant, scores: MeshScores) -> bool {
        !self.peer_suppressed(peer, now) && scores.score(peer) >= scores.eager_min
    }

    pub fn is_score_eligible_for_eager_at(&self, peer: PeerId, now: Instant, scores: &MeshScores) -> (r: bool)
        requires
            self.wf(),
            scores.ranks.wf(),
        ensures
            r == self.score_eligible(peer, now, *scores),
    {
        self.can_graft_peer_at(peer, now) && scores.rank_of(peer).score >= scores.eager_min
    }

    /// What is reported of every peer that the topic knows, in the order of the peers.
    pub fn peer_score_snapshots(&self, topic: TopicId, now: Instant, scores: &MeshScores) -> (r: Vec<
        PeerScoreSnapshot<PeerScore>,
    >)
        requires
            self.wf(),
            scores.ranks.wf(),
        ensures
            ascending_ids(r@.map_values(|s: PeerScoreSnapshot<PeerScore>| s.peer_id.bytes)),
            forall|p: PeerId|
                known_to(*self, p) <==> exists|i: int| 0 <= i < r@.len() && (#[trigger] r@[i]).peer_id == p,
            forall|i: int|
                0 <= i < r@.len() ==> {
                    let row = #[trigger] r@[i];
                    &&& row.topic == topic
                    &&& row.role == self.role_at(row.peer_id, now)
                    &&& row.scores == score_or_new(self.peer_scores@, row.peer_id, now)
                    &&& row.eager_eligible == self.score_eligible(row.peer_id, now, *scores)
                },
    {
        let peers = self.known_peers();
        let mut r: Vec<PeerScoreSnapshot<PeerScore>> = Vec::new();
        let mut i: usize = 0;
        while i < peers.len()
            invariant
                i <= peers@.len(),
                self.wf(),
                scores.ranks.wf(),
                r@.len() == i,
                forall|j: int| 0 <= j < i ==> (#[trigger] r@[j]).peer_id == peers@[j],
                forall|j: int|
                    0 <= j < i ==> {
                        let row = #[trigger] r@[j];
                        &&& row.topic == topic
                        &&& row.role == self.role_at(row.peer_id, now)
                        &&& row.scores == score_or_new(self.peer_scores@, row.peer_id, now)
                        &&& row.eager_eligible == self.score_eligible(row.peer_id, now, *scores)
                    },
            decreases peers@.len() - i,
        {
            let peer = peers[i];
            let evidence = match self.peer_scores.get(&peer) {
                Some(score) => *score,
                None => PeerScore::new_at(now),
            };
            r.push(
                PeerScoreSnapshot {
                    peer_id: peer,
                    topic,
                    role: self.role_for_peer_at(peer, now),
                    scores: evidence,
                    eager_eligible: self.is_score_eligible_for_eager_at(peer, now, scores),
                },
            );
            i = i + 1;
        }
        proof {
            assert(r@.map_values(|s: PeerScoreSnapshot<PeerScore>| s.peer_id.bytes) =~= peers@.map_values(
                |p: PeerId| p.bytes,
            ));
            assert forall|p: PeerId|
                known_to(*self, p) <==> exists|k: int| 0 <= k < r@.len() && (#[trigger] r@[k]).peer_id == p by {
                if known_to(*self, p) {
                    assert(peers@.contains(p));
                    let k = peers@.index_of(p);
                    assert(r@[k].peer_id == p);
                }
                if exists|k: int| 0 <= k < r@.len() && (#[trigger] r@[k]).peer_id == p {
                    let k = choose|k: int| 0 <= k < r@.len() && (#[trigger] r@[k]).peer_id == p;
                    assert(peers@[k] == p);
                    assert(peers@.contains(p));
                }
            }
        }
        r
    }
}

fn add_bytes(set: &mut IdSet<[u8; 32]>, peers: &Vec<PeerId>)
    requires
        old(set).wf(),
    ensures
        final(set).wf(),
        forall|p: PeerId| #[trigger]
            final(set)@.contains(p.bytes) <==> old(set)@.contains(p.bytes) || peers@.contains(p),
{
    let mut i: usize = 0;
    while i < peers.len()
        invariant
            i <= peers@.len(),
            set.wf(),
            forall|p: PeerId| #[trigger]
                set@.contains(p.bytes) <==> old(set)@.contains(p.bytes) || peers@.take(i as int).contains(p),
        decreases peers@.len() - i,
    {
        let peer = peers[i];
        set.insert(peer.bytes);
        proof {
            assert(peers@.take(i + 1) =~= peers@.take(i as int).insert(i as int, peer));
            crate::order::lemma_insert_members(peers@.take(i as int), i as int, peer);
            assert forall|p: PeerId| #[trigger] set@.contains(p.bytes) <==> old(set)@.contains(p.bytes) || peers@.take(
                i + 1,
            ).contains(p) by {
                assert(peers@.take(i + 1).to_set().contains(p) == peers@.take(i as int).to_set().insert(
                    peer,
                ).contains(p));
                assert(p.bytes == peer.bytes ==> p == peer);
            }
        }
        i = i + 1;
    }
    assert(peers@.take(peers@.len() as int) =~= peers@);
}

/// How many reports a peer has is how many there are of it, and each is in one of three states.
pub proof fn reports_of_a_peer_are_counted(rows: Seq<SuppressedPeerSnapshot>, peer: PeerId)
    ensures
        count_rows(rows, peer, None) == rows.filter(|row: SuppressedPeerSnapshot| row.peer_id == peer).len(),
        count_rows(rows, peer, Some(SuppressionState::Cooldown)) == rows.filter(
            |row: SuppressedPeerSnapshot| row.peer_id == peer && row.state == SuppressionState::Cooldown,
        ).len(),
        count_rows(rows, peer, Some(SuppressionState::RecoveryProbe)) == rows.filter(
            |row: SuppressedPeerSnapshot| row.peer_id == peer && row.state == SuppressionState::RecoveryProbe,
        ).len(),
        count_rows(rows, peer, Some(SuppressionState::RecoveryReady)) == rows.filter(
            |row: SuppressedPeerSnapshot| row.peer_id == peer && row.state == SuppressionState::RecoveryReady,
        ).len(),
        count_rows(rows, peer, None) == count_rows(rows, peer, Some(SuppressionState::Cooldown)) + count_rows(
            rows,
            peer,
            Some(SuppressionState::RecoveryProbe),
        ) + count_rows(rows, peer, Some(SuppressionState::RecoveryReady)),
    decreases rows.len(),
{
    reveal(Seq::filter);
    if rows.len() > 0 {
        reports_of_a_peer_are_counted(rows.drop_last(), peer);
    }
}

/// How a peer stands over all topics: cooled where any cooldown of it runs, else in a probe where
/// there is one, else ready for one.
pub proof fn standing_goes_by_the_worst_topic(
    rows: Seq<SuppressedPeerSnapshot>,
    peer: PeerId,
    snapshot: AdmissionStateSnapshot,
)
    requires
        standing_of(rows, peer, snapshot),
    ensures
        ({
            let cooled = exists|i: int|
                0 <= i < rows.len() && (#[trigger] rows[i]).peer_id == peer && rows[i].state
                    == SuppressionState::Cooldown;
            let probed = exists|i: int|
                0 <= i < rows.len() && (#[trigger] rows[i]).peer_id == peer && rows[i].state
                    == SuppressionState::RecoveryProbe;
            let ready = exists|i: int|
                0 <= i < rows.len() && (#[trigger] rows[i]).peer_id == peer && rows[i].state
                    == SuppressionState::RecoveryReady;
            &&& snapshot.state == AdmissionState::Cooled <==> cooled
            &&& snapshot.state == AdmissionState::RecoveryProbe <==> !cooled && probed
            &&& snapshot.state == AdmissionState::RecoveryReady <==> !cooled && !probed && ready
            &&& snapshot.state == AdmissionState::Alive <==> !cooled && !probed && !ready
            &&& snapshot.suppressed_topics_count == snapshot.cooled_topics_count + snapshot.recovery_probe_topics_count
                + snapshot.recovery_ready_topics_count
        }),
{
    reports_of_a_peer_are_counted(rows, peer);
    lemma_some_rows(rows, peer, SuppressionState::Cooldown);
    lemma_some_rows(rows, peer, SuppressionState::RecoveryProbe);
    lemma_some_rows(rows, peer, SuppressionState::RecoveryReady);
}

proof fn lemma_some_rows(rows: Seq<SuppressedPeerSnapshot>, peer: PeerId, state: SuppressionState)
    ensures
        count_rows(rows, peer, Some(state)) > 0 <==> exists|i: int|
            0 <= i < rows.len() && (#[trigger] rows[i]).peer_id == peer && rows[i].state == state,
    decreases rows.len(),
{
    if rows.len() > 0 {
        let rest = rows.drop_last();
        lemma_some_rows(rest, peer, state);
        if exists|i: int| 0 <= i < rest.len() && (#[trigger] rest[i]).peer_id == peer && rest[i].state == state {
            let i = choose|i: int| 0 <= i < rest.len() && (#[trigger] rest[i]).peer_id == peer && rest[i].state == state;
            assert(rows[i] == rest[i]);
        }
        if exists|i: int| 0 <= i < rows.len() && (#[trigger] rows[i]).peer_id == peer && rows[i].state == state {
            let i = choose|i: int| 0 <= i < rows.len() && (#[trigger] rows[i]).peer_id == peer && rows[i].state == state;
            if i < rest.len() {
                assert(rest[i] == rows[i]);
            } else {
                assert(rows[i] == rows.last());
            }
        }
        assert(rows[rows.len() - 1] == rows.last());
    }
}

/// The report that goes with a score is of the same peer on the same topic, and there is one where
/// there is any.
pub proof fn reports_are_found(rows: Seq<SuppressedPeerSnapshot>, topic: TopicId, peer: PeerId)
    ensures
        last_report(rows, topic, peer) is Some <==> exists|i: int|
            0 <= i < rows.len() && (#[trigger] rows[i]).topic == topic && rows[i].peer_id == peer,
        last_report(rows, topic, peer) is Some ==> {
            let row = last_report(rows, topic, peer)->0;
            &&& row.topic == topic && row.peer_id == peer
            &&& rows.contains(row)
        },
    decreases rows.len(),
{
    if rows.len() > 0 {
        let rest = rows.drop_last();
        reports_are_found(rest, topic, peer);
        assert(rows[rows.len() - 1] == rows.last());
        if last_report(rest, topic, peer) is Some {
            let i = rest.index_of(last_report(rest, topic, peer)->0);
            assert(rows[i] == rest[i]);
        }
        if exists|i: int| 0 <= i < rows.len() && (#[trigger] rows[i]).topic == topic && rows[i].peer_id == peer {
            let i = choose|i: int| 0 <= i < rows.len() && (#[trigger] rows[i]).topic == topic && rows[i].peer_id == peer;
            if i < rest.len() {
                assert(rest[i] == rows[i]);
            }
        }
    }
}

/// A score is reported with the suppression of the same peer on the same topic, where there is one;
/// and no score is left out.
pub proof fn scores_are_reported_with_their_suppression<S>(
    scores: Seq<PeerScoreSnapshot<S>>,
    rows: Seq<SuppressedPeerSnapshot>,
    i: int,
)
    requires
        0 <= i < scores.len(),
        forall|j: int|
            i < j < scores.len() ==> (#[trigger] scores[j]).topic != scores[i].topic || scores[j].peer_id
                != scores[i].peer_id,
    ensures
        ({
            let key = SuppressedPeerKey { topic: scores[i].topic, peer: scores[i].peer_id };
            let all = scores_by_key(scores, rows);
            let report = last_report(rows, scores[i].topic, scores[i].peer_id);
            &&& all.dom().contains(key)
            &&& all[key].role == scores[i].role && all[key].scores == scores[i].scores && all[key].eager_eligible
                == scores[i].eager_eligible
            &&& report is None ==> all[key].suppression_state is None && all[key].recent_timeout_count is None
                && all[key].cooldown_ms is None && all[key].last_cool_at_unix_ms is None
            &&& report is Some ==> all[key].suppression_state == Some(report->0.state)
                && all[key].recent_timeout_count == Some(report->0.recent_timeout_count) && all[key].cooldown_ms
                == Some(report->0.cooldown_ms) && all[key].last_cool_at_unix_ms == Some(
                report->0.last_suppressed_unix_ms,
            )
        }),
    decreases scores.len(),
{
    if i < scores.len() - 1 {
        let rest = scores.drop_last();
        assert(rest[i] == scores[i]);
        assert forall|j: int| i < j < rest.len() implies (#[trigger] rest[j]).topic != rest[i].topic || rest[j].peer_id
            != rest[i].peer_id by {
            assert(rest[j] == scores[j]);
        }
        scores_are_reported_with_their_suppression(rest, rows, i);
        assert(scores[scores.len() - 1] == scores.last());
    }
}

/// Who may become eager for its score: a peer that is not suppressed and scores at least the least.
pub proof fn eligible_peers_score_enough(state: TopicState, peer: PeerId, now: Instant, scores: MeshScores)
    ensures
        state.score_eligible(peer, now, scores) <==> (state.peer_cooling@.dom().contains(peer)
            ==> state.peer_cooling@[peer].suppressed_until is None
            && !state.peer_cooling@[peer].recovery_probe_in_flight) && (if scores.ranks@.dom().contains(peer) {
            scores.ranks@[peer].score
        } else {
            scores.unranked.score
        }) >= scores.eager_min,
{
}

/// What is reported of a cache is what it holds and what it has counted, each number in its place.
pub proof fn caches_are_reported_as_they_are(state: TopicState, now: Instant, cache: CacheStatsSnapshot, i: int)
    requires
        cache_reported(state, now, cache),
        0 <= i < state.message_cache.order().len(),
        now.nanos >= state.message_cache.order()[i].1.nanos,
        (now.nanos - state.message_cache.order()[i].1.nanos) / crate::time::NANOS_PER_SEC as int <= u64::MAX,
    ensures
        cache.msg_count == state.message_cache.order().len(),
        cache.total_bytes == bytes_held(state.message_cache.order(), state.message_cache.messages()),
        cache.oldest_age_secs >= (now.nanos - state.message_cache.order()[i].1.nanos) / crate::time::NANOS_PER_SEC as int,
        cache.evicted_by_age == state.message_cache.evicted_by_age(),
        cache.evicted_by_bytes == state.message_cache.evicted_by_bytes(),
        cache.evicted_by_count == state.message_cache.evicted_by_count(),
{
    crate::cache::counts_and_ages_in_numbers(0, 0, state.message_cache.order(), now, i);
}

} // verus!
