//! The eager peers of a topic: who is promoted, demoted and replaced.

use vstd::prelude::*;

use crate::collections::IdMap;
use crate::config::{secs, MAX_EAGER_DEGREE, MIN_EAGER_DEGREE, OPPORTUNISTIC_GRAFT_INTERVAL_SECS};
use crate::ids::PeerId;
use crate::time::{elapsed_between, Duration, Instant};
use crate::topic::TopicState;

verus! {

/// A peer's score as a number that orders like it, and the score of a peer that may replace it.
#[derive(Clone, Copy, Debug, PartialEq, Eq, Structural)]
pub struct PeerRank {
    pub score: u64,
    pub challenge: u64,
}

/// The ranks of the peers of a topic at one moment.
pub struct MeshScores {
    pub ranks: IdMap<PeerId, PeerRank>,
    /// The rank of every other peer.
    pub unranked: PeerRank,
    /// The score below which an eager peer may be replaced, and from which a lazy one may replace.
    pub eager_min: u64,
}

impl MeshScores {
    pub open spec fn rank(&self, peer: PeerId) -> PeerRank {
        if self.ranks@.dom().contains(peer) { self.ranks@[peer] } else { self.unranked }
    }

    pub open spec fn score(&self, peer: PeerId) -> u64 {
        self.rank(peer).score
    }

    pub fn rank_of(&self, peer: PeerId) -> (r: PeerRank)
        requires
            self.ranks.wf(),
        ensures
            r == self.rank(peer),
    {
        match self.ranks.get(&peer) {
            Some(rank) => *rank,
            None => self.unranked,
        }
    }
}

/// `chosen` are `n` of the lowest-scoring peers of `all`.
pub open spec fn lowest_of(chosen: Set<PeerId>, all: Set<PeerId>, n: nat, scores: MeshScores) -> bool {
    &&& chosen.subset_of(all)
    &&& chosen.len() == n
    &&& forall|a: PeerId, b: PeerId|
        #[trigger] chosen.contains(a) && #[trigger] all.contains(b) && !chosen.contains(b) ==> scores.score(a)
            <= scores.score(b)
}

/// `chosen` are `n` of the highest-scoring peers of `all`.
pub open spec fn highest_of(chosen: Set<PeerId>, all: Set<PeerId>, n: nat, scores: MeshScores) -> bool {
    &&& chosen.subset_of(all)
    &&& chosen.len() == n
    &&& forall|a: PeerId, b: PeerId|
        #[trigger] chosen.contains(a) && #[trigger] all.contains(b) && !chosen.contains(b) ==> scores.score(a)
            >= scores.score(b)
}

/// A lazy peer replaces an eager one that is below the eager score, where it is itself above and
/// better by the margin.
pub open spec fn replaces(out: PeerId, inn: PeerId, scores: MeshScores) -> bool {
    &&& scores.score(out) < scores.eager_min <= scores.score(inn)
    &&& scores.score(inn) >= scores.rank(out).challenge
}

/// The fewest eager peers for a given most.
pub open spec fn min_degree_for(max_degree: usize) -> nat {
    if MIN_EAGER_DEGREE <= max_degree { MIN_EAGER_DEGREE as nat } else { max_degree as nat }
}

/// The most eager peers for a configured ceiling; zero stands for the usual one.
pub open spec fn degree_ceiling(degree: usize) -> usize {
    if degree == 0 { MAX_EAGER_DEGREE } else { degree }
}

impl TopicState {
    /// Fewest eager peers.
    pub open spec fn min_degree(&self) -> nat {
        min_degree_for(self.max_eager_degree)
    }

    /// The lazy peers that are not suppressed.
    pub open spec fn graftable(&self, now: Instant) -> Set<PeerId> {
        self.lazy_peers@.filter(|p: PeerId| !self.peer_suppressed(p, now))
    }

    /// Nothing but the two roles has changed.
    pub open spec fn only_roles_changed(&self, before: &Self) -> bool {
        &&& self.same_messages(before)
        &&& self.peer_scores == before.peer_scores
        &&& self.peer_cooling == before.peer_cooling
        &&& self.max_eager_degree == before.max_eager_degree
    }

    /// The lowest-scoring eager peers above the most are lazy now.
    pub open spec fn shed_from(&self, before: &Self, scores: MeshScores) -> bool {
        &&& self.only_roles_changed(before)
        &&& self.last_opportunistic_graft == before.last_opportunistic_graft
        &&& if before.eager_peers@.len() > before.max_eager_degree {
            exists|gone: Set<PeerId>|
                {
                    &&& #[trigger] lowest_of(
                        gone,
                        before.eager_peers@,
                        (before.eager_peers@.len() - before.max_eager_degree) as nat,
                        scores,
                    )
                    &&& self.eager_peers@ == before.eager_peers@.difference(gone)
                    &&& self.lazy_peers@ == before.lazy_peers@.union(gone)
                }
        } else {
            self.eager_peers@ == before.eager_peers@ && self.lazy_peers@ == before.lazy_peers@
        }
    }

    /// The highest-scoring lazy peers that are not suppressed are eager now, as many as there were
    /// too few.
    pub open spec fn filled_from(&self, before: &Self, now: Instant, scores: MeshScores) -> bool {
        &&& self.only_roles_changed(before)
        &&& self.last_opportunistic_graft == before.last_opportunistic_graft
        &&& exists|new: Set<PeerId>|
            {
                &&& #[trigger] highest_of(new, before.graftable(now), before.fill_count(now), scores)
                &&& self.eager_peers@ == before.eager_peers@.union(new)
                &&& self.lazy_peers@ == before.lazy_peers@.difference(new)
            }
    }

    /// How many lazy peers are promoted.
    pub open spec fn fill_count(&self, now: Instant) -> nat {
        let missing = if self.eager_peers@.len() < self.min_degree() {
            (self.min_degree() - self.eager_peers@.len()) as nat
        } else {
            0
        };
        if missing <= self.graftable(now).len() { missing } else { self.graftable(now).len() }
    }

    /// Whether a replacement for its score may be considered now.
    pub open spec fn replacement_due(&self, now: Instant) -> bool {
        &&& self.min_degree() <= self.eager_peers@.len() <= self.max_eager_degree
        &&& self.lazy_peers@.len() > 0
        &&& match self.last_opportunistic_graft {
            Some(last) => elapsed_between(now, last) >= secs(OPPORTUNISTIC_GRAFT_INTERVAL_SECS).nanos,
            None => true,
        }
    }

    /// `out` is one of the worst eager peers, and `inn` one of the best lazy peers that are not
    /// suppressed.
    pub open spec fn rivals(&self, out: PeerId, inn: PeerId, now: Instant, scores: MeshScores) -> bool {
        &&& self.eager_peers@.contains(out)
        &&& forall|p: PeerId| #[trigger] self.eager_peers@.contains(p) ==> scores.score(out) <= scores.score(p)
        &&& self.graftable(now).contains(inn)
        &&& forall|p: PeerId| #[trigger] self.graftable(now).contains(p) ==> scores.score(inn) >= scores.score(p)
    }

    /// At most one eager peer has been replaced, and the time noted. Where there are rivals, one
    /// pair of them decides.
    pub open spec fn replaced_from(&self, before: &Self, now: Instant, scores: MeshScores, count: usize) -> bool {
        &&& self.only_roles_changed(before)
        &&& self.last_opportunistic_graft == (if before.replacement_due(now) {
            Some(now)
        } else {
            before.last_opportunistic_graft
        })
        &&& if before.replacement_due(now) && before.eager_peers@.len() > 0 && (exists|p: PeerId| #[trigger]
            before.graftable(now).contains(p)) {
            exists|out: PeerId, inn: PeerId|
                {
                    &&& #[trigger] before.rivals(out, inn, now, scores)
                    &&& if replaces(out, inn, scores) {
                        &&& count == 1
                        &&& self.eager_peers@ == before.eager_peers@.remove(out).insert(inn)
                        &&& self.lazy_peers@ == before.lazy_peers@.insert(out).remove(inn)
                    } else {
                        &&& count == 0
                        &&& self.eager_peers@ == before.eager_peers@
                        &&& self.lazy_peers@ == before.lazy_peers@
                    }
                }
        } else {
            &&& count == 0
            &&& self.eager_peers@ == before.eager_peers@
            &&& self.lazy_peers@ == before.lazy_peers@
        }
    }

    pub fn min_eager_degree(&self) -> (r: usize)
        ensures
            r == self.min_degree(),
    {
        if MIN_EAGER_DEGREE <= self.max_eager_degree { MIN_EAGER_DEGREE } else { self.max_eager_degree }
    }

    /// Moves a peer from lazy to eager where it is not suppressed and there is room; says whether
    /// it was moved.
    pub fn graft_peer_at(&mut self, peer: PeerId, now: Instant) -> (r: bool)
        requires
            old(self).wf(),
        ensures
            final(self).wf(),
            r == (!old(self).peer_suppressed(peer, now) && old(self).eager_peers@.len() < old(self).max_eager_degree
                && old(self).lazy_peers@.contains(peer)),
            r ==> {
                &&& final(self).eager_peers@ == old(self).eager_peers@.insert(peer)
                &&& final(self).lazy_peers@ == old(self).lazy_peers@.remove(peer)
                &&& final(self).only_roles_changed(old(self))
                &&& final(self).last_opportunistic_graft == old(self).last_opportunistic_graft
            },
            !r ==> *final(self) == *old(self),
    {
        if !self.can_graft_peer_at(peer, now) {
            return false;
        }
        if self.eager_peers.len() >= self.max_eager_degree {
            return false;
        }
        if self.lazy_peers.remove(&peer) {
            self.eager_peers.insert(peer);
            true
        } else {
            false
        }
    }

    /// Takes a peer that has no role in as lazy; says whether it had none.
    pub fn add_new_peer_lazy(&mut self, peer: PeerId) -> (r: bool)
        requires
            old(self).wf(),
        ensures
            final(self).wf(),
            r == !(old(self).eager_peers@.contains(peer) || old(self).lazy_peers@.contains(peer)),
            r ==> {
                &&& final(self).eager_peers == old(self).eager_peers
                &&& final(self).lazy_peers@ == old(self).lazy_peers@.insert(peer)
                &&& final(self).only_roles_changed(old(self))
                &&& final(self).last_opportunistic_graft == old(self).last_opportunistic_graft
            },
            !r ==> *final(self) == *old(self),
    {
        if self.eager_peers.contains(&peer) || self.lazy_peers.contains(&peer) {
            return false;
        }
        self.lazy_peers.insert(peer);
        true
    }

    /// One of the worst eager peers.
    fn lowest_eager(&self, scores: &MeshScores) -> (r: Option<PeerId>)
        requires
            self.wf(),
            scores.ranks.wf(),
        ensures
            match r {
                Some(p) => {
                    &&& self.eager_peers@.contains(p)
                    &&& forall|q: PeerId| #[trigger] self.eager_peers@.contains(q) ==> scores.score(p) <= scores.score(q)
                },
                None => self.eager_peers@.len() == 0,
            },
    {
        let peers = self.eager_peers.to_vec();
        let mut best: Option<PeerId> = None;
        let mut i: usize = 0;
        while i < peers.len()
            invariant
                i <= peers@.len(),
                scores.ranks.wf(),
                (best is None) == (i == 0),
                best is Some ==> {
                    &&& peers@.contains(best->0)
                    &&& forall|j: int| 0 <= j < i ==> scores.score(best->0) <= scores.score(#[trigger] peers@[j])
                },
            decreases peers@.len() - i,
        {
            let peer = peers[i];
            let better = match best {
                None => true,
                Some(b) => scores.rank_of(peer).score < scores.rank_of(b).score,
            };
            if better {
                best = Some(peer);
            }
            i = i + 1;
        }
        proof {
            if best is Some {
                assert(peers@.to_set().contains(best->0));
                assert forall|q: PeerId| #[trigger] self.eager_peers@.contains(q) implies scores.score(best->0)
                    <= scores.score(q) by {
                    assert(peers@.to_set().contains(q));
                    let j = peers@.index_of(q);
                    assert(peers@[j] == q);
                }
            }
        }
        best
    }

    /// One of the best lazy peers that are not suppressed.
    fn highest_graftable(&self, now: Instant, scores: &MeshScores) -> (r: Option<PeerId>)
        requires
            self.wf(),
            scores.ranks.wf(),
        ensures
            match r {
                Some(p) => {
                    &&& self.graftable(now).contains(p)
                    &&& forall|q: PeerId| #[trigger] self.graftable(now).contains(q) ==> scores.score(p) >= scores.score(q)
                },
                None => forall|q: PeerId| !#[trigger] self.graftable(now).contains(q),
            },
    {
        let peers = self.lazy_peers.to_vec();
        let mut best: Option<PeerId> = None;
        let mut i: usize = 0;
        while i < peers.len()
            invariant
                i <= peers@.len(),
                self.wf(),
                scores.ranks.wf(),
                match best {
                    Some(b) => {
                        &&& peers@.contains(b)
                        &&& !self.peer_suppressed(b, now)
                        &&& forall|j: int|
                            0 <= j < i && !self.peer_suppressed(#[trigger] peers@[j], now) ==> scores.score(b)
                                >= scores.score(peers@[j])
                    },
                    None => forall|j: int| 0 <= j < i ==> self.peer_suppressed(#[trigger] peers@[j], now),
                },
            decreases peers@.len() - i,
        {
            let peer = peers[i];
            if self.can_graft_peer_at(peer, now) {
                let better = match best {
                    None => true,
                    Some(b) => scores.rank_of(peer).score > scores.rank_of(b).score,
                };
                if better {
                    best = Some(peer);
                }
            }
            i = i + 1;
        }
        proof {
            if best is Some {
                assert(peers@.to_set().contains(best->0));
            }
            assert forall|q: PeerId| #[trigger] self.graftable(now).contains(q) implies best is Some && scores.score(
                best->0,
            ) >= scores.score(q) by {
                assert(peers@.to_set().contains(q));
                let j = peers@.index_of(q);
                assert(peers@[j] == q);
            }
        }
        best
    }

    /// Demotes the lowest-scoring eager peers above the most; says how many.
    fn shed_excess(&mut self, scores: &MeshScores) -> (r: usize)
        requires
            old(self).wf(),
            scores.ranks.wf(),
        ensures
            final(self).wf(),
            final(self).shed_from(old(self), *scores),
            r == (if old(self).eager_peers@.len() > old(self).max_eager_degree {
                old(self).eager_peers@.len() - old(self).max_eager_degree
            } else {
                0
            }),
    {
        let start: usize = self.eager_peers.len();
        let mut pruned: usize = 0;
        let ghost mut gone: Set<PeerId> = Set::empty();
        let ghost before = self.eager_peers@;
        proof {
            old(self).eager_peers.lemma_listed();
            assert(before.difference(gone) =~= before);
            assert(old(self).lazy_peers@.union(gone) =~= old(self).lazy_peers@);
        }
        while self.eager_peers.len() > self.max_eager_degree
            invariant
                self.wf(),
                scores.ranks.wf(),
                before == old(self).eager_peers@,
                before.finite(),
                start == before.len(),
                pruned <= start,
                gone.finite(),
                gone.subset_of(before),
                gone.len() == pruned,
                self.eager_peers@ == before.difference(gone),
                self.eager_peers@.len() == before.len() - pruned,
                self.lazy_peers@ == old(self).lazy_peers@.union(gone),
                self.only_roles_changed(old(self)),
                self.last_opportunistic_graft == old(self).last_opportunistic_graft,
                pruned > 0 ==> self.eager_peers@.len() >= self.max_eager_degree,
                forall|a: PeerId, b: PeerId|
                    #[trigger] gone.contains(a) && #[trigger] before.contains(b) && !gone.contains(b) ==> scores.score(a)
                        <= scores.score(b),
            decreases self.eager_peers@.len(),
        {
            if let Some(peer) = self.lowest_eager(scores) {
                let ghost now_eager = self.eager_peers@;
                proof {
                    self.eager_peers.lemma_listed();
                }
                self.prune_peer(peer);
                pruned = pruned + 1;
                proof {
                    let next = gone.insert(peer);
                    assert(self.eager_peers@ =~= before.difference(next));
                    assert(self.lazy_peers@ =~= old(self).lazy_peers@.union(next));
                    assert forall|a: PeerId, b: PeerId|
                        #[trigger] next.contains(a) && #[trigger] before.contains(b) && !next.contains(
                            b,
                        ) implies scores.score(a) <= scores.score(b) by {
                        assert(now_eager.contains(b));
                    }
                    gone = next;
                }
            } else {
                assert(false);
            }
        }
        proof {
            if pruned > 0 {
                assert(lowest_of(gone, before, (before.len() - old(self).max_eager_degree) as nat, *scores));
            } else {
                assert(gone =~= Set::empty());
                assert(before.difference(gone) =~= before);
                assert(old(self).lazy_peers@.union(gone) =~= old(self).lazy_peers@);
            }
        }
        pruned
    }

    /// Promotes the highest-scoring lazy peers where there are too few eager ones; says how many.
    fn fill_up(&mut self, now: Instant, scores: &MeshScores) -> (r: usize)
        requires
            old(self).wf(),
            scores.ranks.wf(),
        ensures
            final(self).wf(),
            final(self).filled_from(old(self), now, *scores),
            r == old(self).fill_count(now),
    {
        let min: usize = self.min_eager_degree();
        let start: usize = self.eager_peers.len();
        let to_promote: usize = if start < min { min - start } else { 0 };
        let mut grafted: usize = 0;
        let ghost mut new: Set<PeerId> = Set::empty();
        let ghost pool = self.graftable(now);
        proof {
            old(self).lazy_peers.lemma_listed();
            old(self).eager_peers.lemma_listed();
            assert(old(self).eager_peers@.union(new) =~= old(self).eager_peers@);
            assert(old(self).lazy_peers@.difference(new) =~= old(self).lazy_peers@);
            assert(pool.difference(new) =~= pool);
            old(self).lazy_peers@.lemma_len_filter(|p: PeerId| !self.peer_suppressed(p, now));
        }
        let mut found = true;
        while grafted < to_promote && found
            invariant
                self.wf(),
                scores.ranks.wf(),
                min == old(self).min_degree(),
                start == old(self).eager_peers@.len(),
                to_promote == (if start < min { min - start } else { 0 }),
                grafted <= to_promote,
                pool == old(self).graftable(now),
                pool.finite(),
                new.finite(),
                new.subset_of(pool),
                new.len() == grafted,
                self.eager_peers@ == old(self).eager_peers@.union(new),
                old(self).eager_peers@.finite(),
                self.eager_peers@.len() <= start + grafted,
                self.lazy_peers@ == old(self).lazy_peers@.difference(new),
                self.graftable(now) == pool.difference(new),
                self.only_roles_changed(old(self)),
                self.last_opportunistic_graft == old(self).last_opportunistic_graft,
                !found ==> new =~= pool,
                forall|a: PeerId, b: PeerId|
                    #[trigger] new.contains(a) && #[trigger] pool.contains(b) && !new.contains(b) ==> scores.score(a)
                        >= scores.score(b),
            decreases to_promote - grafted, (if found { 1int } else { 0 }),
        {
            match self.highest_graftable(now, scores) {
                Some(peer) => {
                    let ghost pool_now = self.graftable(now);
                    proof {
                        self.eager_peers.lemma_listed();
                        assert(self.graftable(now).contains(peer));
                    }
                    let moved = self.graft_peer_at(peer, now);
                    grafted = grafted + 1;
                    proof {
                        assert(moved);
                        let next = new.insert(peer);
                        assert(self.eager_peers@ =~= old(self).eager_peers@.union(next));
                        assert(self.lazy_peers@ =~= old(self).lazy_peers@.difference(next));
                        assert(self.graftable(now) =~= pool.difference(next));
                        assert forall|a: PeerId, b: PeerId|
                            #[trigger] next.contains(a) && #[trigger] pool.contains(b) && !next.contains(
                                b,
                            ) implies scores.score(a) >= scores.score(b) by {
                            assert(pool_now.contains(b));
                        }
                        new = next;
                    }
                },
                None => {
                    found = false;
                    assert forall|p: PeerId| pool.contains(p) implies new.contains(p) by {
                        assert(!self.graftable(now).contains(p));
                    }
                    assert(new =~= pool);
                },
            }
        }
        proof {
            vstd::set_lib::lemma_len_subset(new, pool);
            assert(highest_of(new, pool, old(self).fill_count(now), *scores));
        }
        grafted
    }

    /// Where the mesh has its size, replaces one low-scoring eager peer by a much better lazy one;
    /// at most once per interval. Says how many peers were demoted and promoted.
    fn opportunistic_graft_at(&mut self, now: Instant, scores: &MeshScores) -> (r: (usize, usize))
        requires
            old(self).wf(),
            scores.ranks.wf(),
        ensures
            final(self).wf(),
            r.0 == r.1,
            final(self).replaced_from(old(self), now, *scores, r.0),
    {
        let size: usize = self.eager_peers.len();
        if size < self.min_eager_degree() || size > self.max_eager_degree || self.lazy_peers.is_empty() {
            return (0, 0);
        }
        if let Some(last) = self.last_opportunistic_graft {
            if now.saturating_duration_since(last).nanos < Duration::from_secs(OPPORTUNISTIC_GRAFT_INTERVAL_SECS).nanos {
                return (0, 0);
            }
        }
        self.last_opportunistic_graft = Some(now);
        assert(self.graftable(now) =~= old(self).graftable(now));
        let out = match self.lowest_eager(scores) {
            Some(peer) => peer,
            None => {
                return (0, 0);
            },
        };
        let inn = match self.highest_graftable(now, scores) {
            Some(peer) => peer,
            None => {
                return (0, 0);
            },
        };
        proof {
            self.eager_peers.lemma_listed();
            assert(old(self).graftable(now).contains(inn));
            assert(old(self).rivals(out, inn, now, *scores));
        }
        let out_rank = scores.rank_of(out);
        let inn_score: u64 = scores.rank_of(inn).score;
        if inn_score < scores.eager_min || out_rank.score >= scores.eager_min || inn_score < out_rank.challenge {
            return (0, 0);
        }
        self.prune_peer(out);
        self.graft_peer_at(inn, now);
        (1, 1)
    }

    /// All that one maintenance of the degree does, in its three steps.
    pub open spec fn maintained_from(
        &self,
        before: &Self,
        now: Instant,
        scores: MeshScores,
        pruned: usize,
        grafted: usize,
    ) -> bool {
        exists|shed: TopicState, filled: TopicState, swapped: usize|
            {
                &&& #[trigger] shed.shed_from(before, scores)
                &&& #[trigger] filled.filled_from(&shed, now, scores)
                &&& #[trigger] self.replaced_from(&filled, now, scores, swapped)
                &&& pruned == swapped + (if before.eager_peers@.len() > before.max_eager_degree {
                    before.eager_peers@.len() - before.max_eager_degree
                } else {
                    0
                })
                &&& grafted == swapped + shed.fill_count(now)
                &&& shed.eager_peers.wf() && shed.lazy_peers.wf() && filled.eager_peers.wf() && filled.lazy_peers.wf()
            }
    }

    /// Keeps the number of eager peers within its bounds by their scores: demotes the lowest above
    /// the most, promotes the highest below the fewest, and from time to time replaces one. Says
    /// how many peers were demoted and promoted.
    pub fn maintain_degree_at(&mut self, now: Instant, scores: &MeshScores) -> (r: (usize, usize))
        requires
            old(self).wf(),
            scores.ranks.wf(),
        ensures
            final(self).wf(),
            final(self).maintained_from(old(self), now, *scores, r.0, r.1),
    {
        let size: usize = self.eager_peers.len();
        let shed_count: usize = self.shed_excess(scores);
        let ghost shed = *self;
        let fill_count: usize = self.fill_up(now, scores);
        let ghost filled = *self;
        proof {
            shed.lazy_peers.lemma_listed();
        }
        let (swapped_out, swapped_in) = self.opportunistic_graft_at(now, scores);
        proof {
            assert(self.replaced_from(&filled, now, *scores, swapped_out));
        }
        if swapped_out == 0 {
            (shed_count, fill_count)
        } else {
            (shed_count + 1, fill_count + 1)
        }
    }

    /// Sets the most eager peers, zero for the usual number, and brings the mesh within it.
    pub fn set_eager_degree_ceiling(&mut self, degree: usize, now: Instant, scores: &MeshScores) -> (r: (usize, usize))
        requires
            old(self).wf(),
            scores.ranks.wf(),
        ensures
            final(self).wf(),
            final(self).max_eager_degree == degree_ceiling(degree),
            exists|set: TopicState|
                {
                    &&& set.max_eager_degree == degree_ceiling(degree)
                    &&& set.same_messages(old(self))
                    &&& set.eager_peers == old(self).eager_peers
                    &&& set.lazy_peers == old(self).lazy_peers
                    &&& set.last_opportunistic_graft == old(self).last_opportunistic_graft
                    &&& set.peer_scores == old(self).peer_scores
                    &&& set.peer_cooling == old(self).peer_cooling
                    &&& #[trigger] final(self).maintained_from(&set, now, *scores, r.0, r.1)
                },
    {
        self.max_eager_degree = if degree == 0 { MAX_EAGER_DEGREE } else { degree };
        let ghost set = *self;
        let r = self.maintain_degree_at(now, scores);
        assert(self.maintained_from(&set, now, *scores, r.0, r.1));
        r
    }
}

/// Maintenance leaves no more eager peers than the most, and no fewer than the fewest unless every
/// lazy peer is suppressed.
pub proof fn maintenance_bounds_the_degree(
    before: TopicState,
    after: TopicState,
    now: Instant,
    scores: MeshScores,
    pruned: usize,
    grafted: usize,
)
    requires
        before.wf(),
        before.roles_disjoint(),
        after.maintained_from(&before, now, scores, pruned, grafted),
    ensures
        after.eager_peers@.len() <= after.max_eager_degree,
        after.eager_peers@.len() >= before.min_degree() || (forall|p: PeerId| #[trigger]
            after.lazy_peers@.contains(p) ==> before.peer_suppressed(p, now)),
{
    let (shed, filled, swapped) = choose|shed: TopicState, filled: TopicState, swapped: usize|
        {
            &&& #[trigger] shed.shed_from(&before, scores)
            &&& #[trigger] filled.filled_from(&shed, now, scores)
            &&& #[trigger] after.replaced_from(&filled, now, scores, swapped)
            &&& shed.eager_peers.wf() && shed.lazy_peers.wf() && filled.eager_peers.wf() && filled.lazy_peers.wf()
        };
    before.eager_peers.lemma_listed();
    before.lazy_peers.lemma_listed();
    shed.eager_peers.lemma_listed();
    shed.lazy_peers.lemma_listed();
    filled.eager_peers.lemma_listed();
    lemma_shed(before, shed, scores);
    lemma_filled(shed, filled, now, scores);
    lemma_replaced(filled, after, now, scores, swapped);
    if after.eager_peers@.len() < before.min_degree() {
        assert forall|p: PeerId| #[trigger] after.lazy_peers@.contains(p) implies before.peer_suppressed(p, now) by {
            assert(filled.lazy_peers@.contains(p));
            if !before.peer_suppressed(p, now) {
                assert(shed.graftable(now).contains(p));
            }
        }
    }
}

/// Maintenance loses no peer and invents none, and keeps the roles apart.
pub proof fn maintenance_keeps_the_peers(
    before: TopicState,
    after: TopicState,
    now: Instant,
    scores: MeshScores,
    pruned: usize,
    grafted: usize,
)
    requires
        before.wf(),
        after.maintained_from(&before, now, scores, pruned, grafted),
    ensures
        after.eager_peers@.union(after.lazy_peers@) == before.eager_peers@.union(before.lazy_peers@),
        before.roles_disjoint() ==> after.roles_disjoint(),
        after.only_roles_changed(&before),
{
    let (shed, filled, swapped) = choose|shed: TopicState, filled: TopicState, swapped: usize|
        {
            &&& #[trigger] shed.shed_from(&before, scores)
            &&& #[trigger] filled.filled_from(&shed, now, scores)
            &&& #[trigger] after.replaced_from(&filled, now, scores, swapped)
            &&& shed.eager_peers.wf() && shed.lazy_peers.wf() && filled.eager_peers.wf() && filled.lazy_peers.wf()
        };
    before.eager_peers.lemma_listed();
    before.lazy_peers.lemma_listed();
    shed.eager_peers.lemma_listed();
    shed.lazy_peers.lemma_listed();
    filled.eager_peers.lemma_listed();
    lemma_shed(before, shed, scores);
    lemma_filled(shed, filled, now, scores);
    lemma_replaced(filled, after, now, scores, swapped);
}

/// Maintenance makes no suppressed peer eager.
pub proof fn maintenance_promotes_no_suppressed_peer(
    before: TopicState,
    after: TopicState,
    now: Instant,
    scores: MeshScores,
    pruned: usize,
    grafted: usize,
    peer: PeerId,
)
    requires
        before.wf(),
        after.maintained_from(&before, now, scores, pruned, grafted),
        before.peer_suppressed(peer, now),
        !before.eager_peers@.contains(peer),
    ensures
        !after.eager_peers@.contains(peer),
{
    let (shed, filled, swapped) = choose|shed: TopicState, filled: TopicState, swapped: usize|
        {
            &&& #[trigger] shed.shed_from(&before, scores)
            &&& #[trigger] filled.filled_from(&shed, now, scores)
            &&& #[trigger] after.replaced_from(&filled, now, scores, swapped)
        };
    assert(!shed.eager_peers@.contains(peer));
    assert(!shed.graftable(now).contains(peer));
    assert(!filled.eager_peers@.contains(peer));
    assert(!filled.graftable(now).contains(peer));
}

/// Within the interval after a replacement was considered, maintenance of a mesh that has its size
/// changes nothing.
pub proof fn replacement_is_rate_limited(
    before: TopicState,
    after: TopicState,
    considered_at: Instant,
    now: Instant,
    scores: MeshScores,
    pruned: usize,
    grafted: usize,
)
    requires
        before.wf(),
        before.last_opportunistic_graft == Some(considered_at),
        elapsed_between(now, considered_at) < secs(OPPORTUNISTIC_GRAFT_INTERVAL_SECS).nanos,
        before.min_degree() <= before.eager_peers@.len() <= before.max_eager_degree,
        after.maintained_from(&before, now, scores, pruned, grafted),
    ensures
        pruned == 0 && grafted == 0,
        after.eager_peers@ == before.eager_peers@,
        after.lazy_peers@ == before.lazy_peers@,
{
    let (shed, filled, swapped) = choose|shed: TopicState, filled: TopicState, swapped: usize|
        {
            &&& #[trigger] shed.shed_from(&before, scores)
            &&& #[trigger] filled.filled_from(&shed, now, scores)
            &&& #[trigger] after.replaced_from(&filled, now, scores, swapped)
            &&& pruned == swapped + (if before.eager_peers@.len() > before.max_eager_degree {
                before.eager_peers@.len() - before.max_eager_degree
            } else {
                0
            })
            &&& grafted == swapped + shed.fill_count(now)
            &&& shed.eager_peers.wf() && shed.lazy_peers.wf() && filled.eager_peers.wf() && filled.lazy_peers.wf()
        };
    before.lazy_peers.lemma_listed();
    shed.lazy_peers.lemma_listed();
    let new = choose|new: Set<PeerId>|
        {
            &&& #[trigger] highest_of(new, shed.graftable(now), shed.fill_count(now), scores)
            &&& filled.eager_peers@ == shed.eager_peers@.union(new)
            &&& filled.lazy_peers@ == shed.lazy_peers@.difference(new)
        };
    shed.lazy_peers@.lemma_len_filter(|p: PeerId| !shed.peer_suppressed(p, now));
    vstd::set_lib::lemma_len_subset(new, shed.graftable(now));
    assert(new =~= Set::empty());
    assert(filled.eager_peers@ =~= shed.eager_peers@);
    assert(filled.lazy_peers@ =~= shed.lazy_peers@);
}

/// A demoted peer that is promoted again leaves the mesh as it was.
pub proof fn graft_undoes_prune(before: TopicState, pruned: TopicState, after: TopicState, peer: PeerId)
    requires
        before.roles_disjoint(),
        before.eager_peers@.contains(peer),
        pruned.demoted(&before, peer),
        after.eager_peers@ == pruned.eager_peers@.insert(peer),
        after.lazy_peers@ == pruned.lazy_peers@.remove(peer),
    ensures
        after.eager_peers@ == before.eager_peers@,
        after.lazy_peers@ == before.lazy_peers@,
{
    assert(!before.lazy_peers@.contains(peer));
    assert(after.eager_peers@ =~= before.eager_peers@);
    assert(after.lazy_peers@ =~= before.lazy_peers@);
}

/// Demoting a peer, promoting one and taking one in keep the roles apart.
pub proof fn moving_a_peer_keeps_the_roles_apart(before: TopicState, after: TopicState, peer: PeerId)
    requires
        before.roles_disjoint(),
    ensures
        after.demoted(&before, peer) ==> after.roles_disjoint(),
        after.eager_peers@ == before.eager_peers@.insert(peer) && after.lazy_peers@ == before.lazy_peers@.remove(peer)
            ==> after.roles_disjoint(),
        !before.eager_peers@.contains(peer) && after.eager_peers == before.eager_peers && after.lazy_peers@
            == before.lazy_peers@.insert(peer) ==> after.roles_disjoint(),
{
}

proof fn lemma_shed(before: TopicState, shed: TopicState, scores: MeshScores)
    requires
        before.eager_peers@.finite(),
        shed.shed_from(&before, scores),
    ensures
        shed.eager_peers@.len() <= shed.max_eager_degree,
        before.eager_peers@.len() <= before.max_eager_degree ==> shed.eager_peers@.len() == before.eager_peers@.len(),
        before.eager_peers@.len() > before.max_eager_degree ==> shed.eager_peers@.len() == before.max_eager_degree,
        shed.eager_peers@.union(shed.lazy_peers@) == before.eager_peers@.union(before.lazy_peers@),
        before.roles_disjoint() ==> shed.roles_disjoint(),
{
    if before.eager_peers@.len() > before.max_eager_degree {
        let gone = choose|gone: Set<PeerId>|
            {
                &&& #[trigger] lowest_of(
                    gone,
                    before.eager_peers@,
                    (before.eager_peers@.len() - before.max_eager_degree) as nat,
                    scores,
                )
                &&& shed.eager_peers@ == before.eager_peers@.difference(gone)
                &&& shed.lazy_peers@ == before.lazy_peers@.union(gone)
            };
        vstd::set_lib::lemma_len_subset(gone, before.eager_peers@);
        vstd::set_lib::lemma_len_difference(before.eager_peers@, gone);
        assert(before.eager_peers@ =~= before.eager_peers@.difference(gone) + gone);
        assert(before.eager_peers@.difference(gone).disjoint(gone));
        vstd::set_lib::lemma_set_disjoint_lens(before.eager_peers@.difference(gone), gone);
        assert(shed.eager_peers@.union(shed.lazy_peers@) =~= before.eager_peers@.union(before.lazy_peers@));
    }
}

proof fn lemma_filled(before: TopicState, filled: TopicState, now: Instant, scores: MeshScores)
    requires
        before.eager_peers@.finite(),
        before.lazy_peers@.finite(),
        before.eager_peers@.len() <= before.max_eager_degree,
        filled.filled_from(&before, now, scores),
    ensures
        filled.eager_peers@.len() <= filled.max_eager_degree,
        before.roles_disjoint() ==> filled.eager_peers@.len() >= before.min_degree() || (forall|p: PeerId| #[trigger]
            before.graftable(now).contains(p) ==> !filled.lazy_peers@.contains(p)),
        filled.eager_peers@.union(filled.lazy_peers@) == before.eager_peers@.union(before.lazy_peers@),
        before.roles_disjoint() ==> filled.roles_disjoint(),
        filled.eager_peers@.finite(),
        filled.lazy_peers@.finite(),
{
    let pool = before.graftable(now);
    let new = choose|new: Set<PeerId>|
        {
            &&& #[trigger] highest_of(new, pool, before.fill_count(now), scores)
            &&& filled.eager_peers@ == before.eager_peers@.union(new)
            &&& filled.lazy_peers@ == before.lazy_peers@.difference(new)
        };
    before.lazy_peers@.lemma_len_filter(|p: PeerId| !before.peer_suppressed(p, now));
    vstd::set_lib::lemma_len_subset(new, pool);
    vstd::set_lib::lemma_len_union(before.eager_peers@, new);
    assert(filled.eager_peers@.union(filled.lazy_peers@) =~= before.eager_peers@.union(before.lazy_peers@));
    if before.roles_disjoint() {
        assert(before.eager_peers@.disjoint(new)) by {
            assert forall|p: PeerId| before.eager_peers@.contains(p) implies !new.contains(p) by {
                if new.contains(p) {
                    assert(pool.contains(p));
                }
            }
        }
        vstd::set_lib::lemma_set_disjoint_lens(before.eager_peers@, new);
        if filled.eager_peers@.len() < before.min_degree() {
            vstd::set_lib::lemma_subset_equality(new, pool);
        }
    }
}

proof fn lemma_replaced(before: TopicState, after: TopicState, now: Instant, scores: MeshScores, count: usize)
    requires
        before.eager_peers@.finite(),
        before.eager_peers@.len() <= before.max_eager_degree,
        after.replaced_from(&before, now, scores, count),
    ensures
        after.eager_peers@.len() <= after.max_eager_degree,
        before.roles_disjoint() ==> after.eager_peers@.len() == before.eager_peers@.len(),
        after.eager_peers@.union(after.lazy_peers@) == before.eager_peers@.union(before.lazy_peers@),
        before.roles_disjoint() ==> after.roles_disjoint(),
        before.eager_peers@.len() < before.min_degree() ==> after.lazy_peers@ == before.lazy_peers@,
{
    if count == 1 {
        let (out, inn) = choose|out: PeerId, inn: PeerId|
            {
                &&& #[trigger] before.rivals(out, inn, now, scores)
                &&& after.eager_peers@ == before.eager_peers@.remove(out).insert(inn)
                &&& after.lazy_peers@ == before.lazy_peers@.insert(out).remove(inn)
            };
        assert(before.lazy_peers@.contains(inn));
        assert(after.eager_peers@.union(after.lazy_peers@) =~= before.eager_peers@.union(before.lazy_peers@));
    } else {
        assert(after.eager_peers@ == before.eager_peers@);
    }
}

/// The score that a peer goes by: its own, or that of every unknown peer.
pub open spec fn known_score(scores: MeshScores, peer: PeerId) -> u64 {
    if scores.ranks@.dom().contains(peer) { scores.ranks@[peer].score } else { scores.unranked.score }
}

/// The score from which a peer may take the place of another.
pub open spec fn known_challenge(scores: MeshScores, peer: PeerId) -> u64 {
    if scores.ranks@.dom().contains(peer) { scores.ranks@[peer].challenge } else { scores.unranked.challenge }
}

/// A lazy peer that no suppression keeps from becoming eager.
pub open spec fn is_candidate(state: TopicState, peer: PeerId) -> bool {
    &&& state.lazy_peers@.contains(peer)
    &&& state.peer_cooling@.dom().contains(peer) ==> state.peer_cooling@[peer].suppressed_until is None
        && !state.peer_cooling@[peer].recovery_probe_in_flight
}

proof fn lemma_nothing_to_fill(shed: TopicState, filled: TopicState, now: Instant, scores: MeshScores)
    requires
        shed.lazy_peers.wf(),
        filled.filled_from(&shed, now, scores),
        shed.eager_peers@.len() >= shed.min_degree(),
    ensures
        shed.fill_count(now) == 0,
        filled.eager_peers@ == shed.eager_peers@,
        filled.lazy_peers@ == shed.lazy_peers@,
{
    shed.lazy_peers.lemma_listed();
    let new = choose|new: Set<PeerId>|
        {
            &&& #[trigger] highest_of(new, shed.graftable(now), shed.fill_count(now), scores)
            &&& filled.eager_peers@ == shed.eager_peers@.union(new)
            &&& filled.lazy_peers@ == shed.lazy_peers@.difference(new)
        };
    shed.lazy_peers@.lemma_len_filter(|p: PeerId| !shed.peer_suppressed(p, now));
    vstd::set_lib::lemma_len_subset(new, shed.graftable(now));
    assert(new =~= Set::empty());
    assert(filled.eager_peers@ =~= shed.eager_peers@);
    assert(filled.lazy_peers@ =~= shed.lazy_peers@);
}

/// A mesh that has its size, and whose eager peers all score well enough, stays as it is.
pub proof fn healthy_meshes_stay_as_they_are(
    before: TopicState,
    after: TopicState,
    now: Instant,
    scores: MeshScores,
    pruned: usize,
    grafted: usize,
)
    requires
        before.wf(),
        before.eager_peers@.len() <= before.max_eager_degree,
        before.eager_peers@.len() >= MIN_EAGER_DEGREE || before.eager_peers@.len() == before.max_eager_degree,
        forall|p: PeerId| #[trigger] before.eager_peers@.contains(p) ==> known_score(scores, p) >= scores.eager_min,
        after.maintained_from(&before, now, scores, pruned, grafted),
    ensures
        pruned == 0 && grafted == 0,
        after.eager_peers@ == before.eager_peers@,
        after.lazy_peers@ == before.lazy_peers@,
{
    let (shed, filled, swapped) = choose|shed: TopicState, filled: TopicState, swapped: usize|
        {
            &&& #[trigger] shed.shed_from(&before, scores)
            &&& #[trigger] filled.filled_from(&shed, now, scores)
            &&& #[trigger] after.replaced_from(&filled, now, scores, swapped)
            &&& pruned == swapped + (if before.eager_peers@.len() > before.max_eager_degree {
                before.eager_peers@.len() - before.max_eager_degree
            } else {
                0
            })
            &&& grafted == swapped + shed.fill_count(now)
            &&& shed.eager_peers.wf() && shed.lazy_peers.wf() && filled.eager_peers.wf() && filled.lazy_peers.wf()
        };
    lemma_nothing_to_fill(shed, filled, now, scores);
    assert forall|out: PeerId, inn: PeerId| #[trigger] filled.rivals(out, inn, now, scores) implies !replaces(
        out,
        inn,
        scores,
    ) by {
        assert(before.eager_peers@.contains(out));
        assert(known_score(scores, out) >= scores.eager_min);
    }
}

/// Of the eager peers maintenance demotes the worst: none that it keeps scores lower than one that
/// it demotes.
pub proof fn maintenance_demotes_the_worst(
    before: TopicState,
    after: TopicState,
    now: Instant,
    scores: MeshScores,
    pruned: usize,
    grafted: usize,
    demoted: PeerId,
    kept: PeerId,
)
    requires
        before.wf(),
        before.roles_disjoint(),
        after.maintained_from(&before, now, scores, pruned, grafted),
        before.eager_peers@.contains(demoted) && !after.eager_peers@.contains(demoted),
        before.eager_peers@.contains(kept) && after.eager_peers@.contains(kept),
    ensures
        after.lazy_peers@.contains(demoted),
        known_score(scores, demoted) <= known_score(scores, kept),
{
    let (shed, filled, swapped) = choose|shed: TopicState, filled: TopicState, swapped: usize|
        {
            &&& #[trigger] shed.shed_from(&before, scores)
            &&& #[trigger] filled.filled_from(&shed, now, scores)
            &&& #[trigger] after.replaced_from(&filled, now, scores, swapped)
            &&& pruned == swapped + (if before.eager_peers@.len() > before.max_eager_degree {
                before.eager_peers@.len() - before.max_eager_degree
            } else {
                0
            })
            &&& grafted == swapped + shed.fill_count(now)
            &&& shed.eager_peers.wf() && shed.lazy_peers.wf() && filled.eager_peers.wf() && filled.lazy_peers.wf()
        };
    maintenance_keeps_the_peers(before, after, now, scores, pruned, grafted);
    before.eager_peers.lemma_listed();
    lemma_shed(before, shed, scores);
    assert(after.eager_peers@.union(after.lazy_peers@).contains(demoted));
    assert(known_score(scores, demoted) == scores.score(demoted));
    assert(known_score(scores, kept) == scores.score(kept));
    if before.eager_peers@.len() > before.max_eager_degree {
        lemma_nothing_to_fill(shed, filled, now, scores);
        let gone = choose|gone: Set<PeerId>|
            {
                &&& #[trigger] lowest_of(
                    gone,
                    before.eager_peers@,
                    (before.eager_peers@.len() - before.max_eager_degree) as nat,
                    scores,
                )
                &&& shed.eager_peers@ == before.eager_peers@.difference(gone)
                &&& shed.lazy_peers@ == before.lazy_peers@.union(gone)
            };
        if swapped == 1 {
            let (out, inn) = choose|out: PeerId, inn: PeerId|
                {
                    &&& #[trigger] filled.rivals(out, inn, now, scores)
                    &&& replaces(out, inn, scores)
                    &&& after.eager_peers@ == filled.eager_peers@.remove(out).insert(inn)
                };
            if gone.contains(inn) {
                assert(before.eager_peers@.contains(out) && !gone.contains(out));
                assert(scores.score(inn) <= scores.score(out));
            }
        }
    }
}

/// Of the lazy peers maintenance promotes the best: none that it leaves lazy and that could have
/// become eager scores higher than one that it promotes, and it promotes no suppressed one.
pub proof fn maintenance_promotes_the_best(
    before: TopicState,
    after: TopicState,
    now: Instant,
    scores: MeshScores,
    pruned: usize,
    grafted: usize,
    promoted: PeerId,
    left: PeerId,
)
    requires
        before.wf(),
        before.roles_disjoint(),
        after.maintained_from(&before, now, scores, pruned, grafted),
        !before.eager_peers@.contains(promoted) && after.eager_peers@.contains(promoted),
    ensures
        is_candidate(before, promoted),
        is_candidate(before, left) && after.lazy_peers@.contains(left) ==> known_score(scores, promoted) >= known_score(
            scores,
            left,
        ),
{
    let (shed, filled, swapped) = choose|shed: TopicState, filled: TopicState, swapped: usize|
        {
            &&& #[trigger] shed.shed_from(&before, scores)
            &&& #[trigger] filled.filled_from(&shed, now, scores)
            &&& #[trigger] after.replaced_from(&filled, now, scores, swapped)
            &&& pruned == swapped + (if before.eager_peers@.len() > before.max_eager_degree {
                before.eager_peers@.len() - before.max_eager_degree
            } else {
                0
            })
            &&& grafted == swapped + shed.fill_count(now)
            &&& shed.eager_peers.wf() && shed.lazy_peers.wf() && filled.eager_peers.wf() && filled.lazy_peers.wf()
        };
    maintenance_keeps_the_peers(before, after, now, scores, pruned, grafted);
    before.eager_peers.lemma_listed();
    lemma_shed(before, shed, scores);
    assert(before.eager_peers@.union(before.lazy_peers@).contains(promoted)) by {
        assert(after.eager_peers@.union(after.lazy_peers@).contains(promoted));
    }
    assert(known_score(scores, promoted) == scores.score(promoted));
    assert(known_score(scores, left) == scores.score(left));
    assert(is_candidate(before, promoted) == (before.lazy_peers@.contains(promoted) && !before.peer_suppressed(
        promoted,
        now,
    )));
    assert(is_candidate(before, left) == (before.lazy_peers@.contains(left) && !before.peer_suppressed(left, now)));
    assert(shed.graftable(now).contains(promoted) || filled.graftable(now).contains(promoted));
    if is_candidate(before, left) && after.lazy_peers@.contains(left) {
        assert(!after.eager_peers@.contains(left));
        assert(shed.lazy_peers@.contains(left));
        assert(shed.graftable(now).contains(left));
        if filled.eager_peers@.contains(left) {
            // Promoted and replaced at once: whatever replaced it scores higher.
            let new = choose|new: Set<PeerId>|
                {
                    &&& #[trigger] highest_of(new, shed.graftable(now), shed.fill_count(now), scores)
                    &&& filled.eager_peers@ == shed.eager_peers@.union(new)
                    &&& filled.lazy_peers@ == shed.lazy_peers@.difference(new)
                };
            assert(new.contains(left));
        } else {
            assert(filled.graftable(now).contains(left));
        }
    }
}

/// How many eager peers maintenance leaves: as many as there were where that is within the bounds,
/// the most where there were more, and where there were fewer than the fewest as many as the lazy
/// peers that are not suppressed allow.
pub proof fn maintenance_brings_the_degree_within_its_bounds(
    before: TopicState,
    after: TopicState,
    now: Instant,
    scores: MeshScores,
    pruned: usize,
    grafted: usize,
)
    requires
        before.wf(),
        before.roles_disjoint(),
        after.maintained_from(&before, now, scores, pruned, grafted),
    ensures
        ({
            let fewest = if MIN_EAGER_DEGREE <= before.max_eager_degree {
                MIN_EAGER_DEGREE
            } else {
                before.max_eager_degree
            };
            let n = before.eager_peers@.len();
            let after_n = after.eager_peers@.len();
            let candidates = before.lazy_peers@.filter(|p: PeerId| is_candidate(before, p)).len();
            &&& n > before.max_eager_degree ==> after_n == before.max_eager_degree
            &&& fewest <= n <= before.max_eager_degree ==> after_n == n
            &&& n < fewest && n + candidates >= fewest ==> after_n == fewest
            &&& n < fewest && n + candidates < fewest ==> after_n == n + candidates
        }),
{
    let (shed, filled, swapped) = choose|shed: TopicState, filled: TopicState, swapped: usize|
        {
            &&& #[trigger] shed.shed_from(&before, scores)
            &&& #[trigger] filled.filled_from(&shed, now, scores)
            &&& #[trigger] after.replaced_from(&filled, now, scores, swapped)
            &&& pruned == swapped + (if before.eager_peers@.len() > before.max_eager_degree {
                before.eager_peers@.len() - before.max_eager_degree
            } else {
                0
            })
            &&& grafted == swapped + shed.fill_count(now)
            &&& shed.eager_peers.wf() && shed.lazy_peers.wf() && filled.eager_peers.wf() && filled.lazy_peers.wf()
        };
    before.eager_peers.lemma_listed();
    before.lazy_peers.lemma_listed();
    shed.eager_peers.lemma_listed();
    shed.lazy_peers.lemma_listed();
    filled.eager_peers.lemma_listed();
    lemma_shed(before, shed, scores);
    lemma_filled(shed, filled, now, scores);
    lemma_replaced(filled, after, now, scores, swapped);
    if before.eager_peers@.len() >= before.min_degree() {
        lemma_nothing_to_fill(shed, filled, now, scores);
    } else {
        assert(shed.graftable(now) =~= before.lazy_peers@.filter(|p: PeerId| is_candidate(before, p)));
        let new = choose|new: Set<PeerId>|
            {
                &&& #[trigger] highest_of(new, shed.graftable(now), shed.fill_count(now), scores)
                &&& filled.eager_peers@ == shed.eager_peers@.union(new)
                &&& filled.lazy_peers@ == shed.lazy_peers@.difference(new)
            };
        shed.lazy_peers@.lemma_len_filter(|p: PeerId| !shed.peer_suppressed(p, now));
        vstd::set_lib::lemma_len_subset(new, shed.graftable(now));
        assert(shed.eager_peers@.disjoint(new)) by {
            assert forall|p: PeerId| shed.eager_peers@.contains(p) implies !new.contains(p) by {
                if new.contains(p) {
                    assert(shed.graftable(now).contains(p));
                }
            }
        }
        vstd::set_lib::lemma_set_disjoint_lens(shed.eager_peers@, new);
    }
}

/// When an eager peer is replaced: in a mesh that has its size and was not looked at within the
/// interval, exactly where the worst eager peer is below the least score, the best candidate is not,
/// and beats it by the margin. Either way the time is noted.
pub proof fn replacements_are_for_low_scores(
    before: TopicState,
    after: TopicState,
    now: Instant,
    scores: MeshScores,
    pruned: usize,
    grafted: usize,
)
    requires
        before.wf(),
        before.roles_disjoint(),
        0 < before.eager_peers@.len() <= before.max_eager_degree,
        before.eager_peers@.len() >= MIN_EAGER_DEGREE || before.eager_peers@.len() == before.max_eager_degree,
        before.last_opportunistic_graft is Some ==> now.nanos >= before.last_opportunistic_graft->0.nanos
            + OPPORTUNISTIC_GRAFT_INTERVAL_SECS * crate::time::NANOS_PER_SEC,
        before.lazy_peers@.len() > 0,
        after.maintained_from(&before, now, scores, pruned, grafted),
    ensures
        after.last_opportunistic_graft == Some(now),
        pruned == grafted && pruned <= 1,
        pruned == 1 ==> exists|out: PeerId, inn: PeerId|
            {
                &&& #[trigger] before.eager_peers@.contains(out) && known_score(scores, out) < scores.eager_min
                &&& #[trigger] is_candidate(before, inn) && known_score(scores, inn) >= scores.eager_min
                &&& known_score(scores, inn) >= known_challenge(scores, out)
                &&& after.eager_peers@ == before.eager_peers@.remove(out).insert(inn)
                &&& after.lazy_peers@ == before.lazy_peers@.insert(out).remove(inn)
            },
        pruned == 0 ==> after.eager_peers@ == before.eager_peers@ && after.lazy_peers@ == before.lazy_peers@,
        (exists|inn: PeerId| #[trigger] is_candidate(before, inn) && known_score(scores, inn) >= scores.eager_min
            && (forall|out: PeerId| #[trigger]
                before.eager_peers@.contains(out) ==> known_score(scores, inn) >= known_challenge(scores, out)))
            && (exists|out: PeerId| #[trigger]
            before.eager_peers@.contains(out) && known_score(scores, out) < scores.eager_min) ==> pruned == 1,
{
    let (shed, filled, swapped) = choose|shed: TopicState, filled: TopicState, swapped: usize|
        {
            &&& #[trigger] shed.shed_from(&before, scores)
            &&& #[trigger] filled.filled_from(&shed, now, scores)
            &&& #[trigger] after.replaced_from(&filled, now, scores, swapped)
            &&& pruned == swapped + (if before.eager_peers@.len() > before.max_eager_degree {
                before.eager_peers@.len() - before.max_eager_degree
            } else {
                0
            })
            &&& grafted == swapped + shed.fill_count(now)
            &&& shed.eager_peers.wf() && shed.lazy_peers.wf() && filled.eager_peers.wf() && filled.lazy_peers.wf()
        };
    lemma_nothing_to_fill(shed, filled, now, scores);
    assert forall|p: PeerId| #[trigger] is_candidate(before, p) == filled.graftable(now).contains(p) by {
        assert(is_candidate(before, p) == (before.lazy_peers@.contains(p) && !before.peer_suppressed(p, now)));
    }
    assert forall|p: PeerId| #[trigger] known_score(scores, p) == scores.score(p) && known_challenge(scores, p)
        == scores.rank(p).challenge by {}
    assert(filled.replacement_due(now));
    if exists|p: PeerId| #[trigger] filled.graftable(now).contains(p) {
        let (out, inn) = choose|out: PeerId, inn: PeerId|
            {
                &&& #[trigger] filled.rivals(out, inn, now, scores)
                &&& if replaces(out, inn, scores) {
                    &&& swapped == 1
                    &&& after.eager_peers@ == filled.eager_peers@.remove(out).insert(inn)
                    &&& after.lazy_peers@ == filled.lazy_peers@.insert(out).remove(inn)
                } else {
                    &&& swapped == 0
                    &&& after.eager_peers@ == filled.eager_peers@
                    &&& after.lazy_peers@ == filled.lazy_peers@
                }
            };
        assert(before.eager_peers@.contains(out));
        assert(is_candidate(before, inn));
        assert(known_score(scores, inn) == scores.score(inn));
        assert(known_score(scores, out) == scores.score(out));
    } else {
        assert forall|p: PeerId| !#[trigger] is_candidate(before, p) by {
            assert(is_candidate(before, p) == filled.graftable(now).contains(p));
        }
    }
}

} // verus!
