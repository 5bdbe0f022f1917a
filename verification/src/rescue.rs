//! The last resort of a topic whose eager peers are all suppressed.

use vstd::prelude::*;

use crate::ids::PeerId;
use crate::time::Instant;
use crate::topic::TopicState;

verus! {

impl TopicState {
    /// When the suppression of a peer ends; zero for a peer without one.
    pub open spec fn recovers_at(&self, peer: PeerId) -> u128 {
        if self.peer_cooling@.dom().contains(peer) && self.peer_cooling@[peer].suppressed_until is Some {
            self.peer_cooling@[peer].suppressed_until->0.nanos
        } else {
            0
        }
    }

    /// Somebody listens, and every eager peer is suppressed.
    pub open spec fn needs_rescue(&self, now: Instant) -> bool {
        &&& self.live_subscribers > 0
        &&& forall|p: PeerId| #[trigger] self.eager_peers@.contains(p) ==> self.peer_suppressed(p, now)
    }

    /// No lazy peer recovers before this one.
    pub open spec fn earliest_lazy(&self, peer: PeerId) -> bool {
        &&& self.lazy_peers@.contains(peer)
        &&& forall|p: PeerId| #[trigger] self.lazy_peers@.contains(p) ==> self.recovers_at(peer) <= self.recovers_at(p)
    }

    /// No eager peer recovers after this one.
    pub open spec fn latest_eager(&self, peer: PeerId) -> bool {
        &&& self.eager_peers@.contains(peer)
        &&& forall|p: PeerId| #[trigger] self.eager_peers@.contains(p) ==> self.recovers_at(peer) >= self.recovers_at(p)
    }

    fn recovery_time(&self, peer: PeerId) -> (r: u128)
        requires
            self.wf(),
        ensures
            r == self.recovers_at(peer),
    {
        match self.peer_cooling.get(&peer) {
            Some(state) => match state.suppressed_until {
                Some(until) => until.nanos,
                None => 0,
            },
            None => 0,
        }
    }

    fn all_eager_suppressed(&self, now: Instant) -> (r: bool)
        requires
            self.wf(),
        ensures
            r == (forall|p: PeerId| #[trigger] self.eager_peers@.contains(p) ==> self.peer_suppressed(p, now)),
    {
        let peers = self.eager_peers.to_vec();
        let mut i: usize = 0;
        while i < peers.len()
            invariant
                i <= peers@.len(),
                self.wf(),
                peers@.to_set() == self.eager_peers@,
                forall|j: int| 0 <= j < i ==> self.peer_suppressed(#[trigger] peers@[j], now),
            decreases peers@.len() - i,
        {
            if !self.is_peer_suppressed_at(peers[i], now) {
                assert(peers@.to_set().contains(peers@[i as int]));
                return false;
            }
            i = i + 1;
        }
        assert forall|p: PeerId| #[trigger] self.eager_peers@.contains(p) implies self.peer_suppressed(p, now) by {
            assert(peers@.to_set().contains(p));
            assert(peers@[peers@.index_of(p)] == p);
        }
        true
    }

    fn find_earliest_lazy(&self) -> (r: Option<PeerId>)
        requires
            self.wf(),
        ensures
            match r {
                Some(p) => self.earliest_lazy(p),
                None => forall|p: PeerId| !#[trigger] self.lazy_peers@.contains(p),
            },
    {
        let peers = self.lazy_peers.to_vec();
        let mut best: Option<PeerId> = None;
        let mut i: usize = 0;
        while i < peers.len()
            invariant
                i <= peers@.len(),
                self.wf(),
                (best is None) == (i == 0),
                best is Some ==> {
                    &&& peers@.contains(best->0)
                    &&& forall|j: int| 0 <= j < i ==> self.recovers_at(best->0) <= self.recovers_at(#[trigger] peers@[j])
                },
            decreases peers@.len() - i,
        {
            let better = match best {
                None => true,
                Some(b) => self.recovery_time(peers[i]) < self.recovery_time(b),
            };
            if better {
                best = Some(peers[i]);
            }
            i = i + 1;
        }
        proof {
            if best is Some {
                assert(peers@.to_set().contains(best->0));
            }
            assert forall|p: PeerId| #[trigger] self.lazy_peers@.contains(p) implies best is Some && self.recovers_at(
                best->0,
            ) <= self.recovers_at(p) by {
                assert(peers@.to_set().contains(p));
                assert(peers@[peers@.index_of(p)] == p);
            }
        }
        best
    }

    fn find_latest_eager(&self) -> (r: Option<PeerId>)
        requires
            self.wf(),
        ensures
            match r {
                Some(p) => self.latest_eager(p),
                None => forall|p: PeerId| !#[trigger] self.eager_peers@.contains(p),
            },
    {
        let peers = self.eager_peers.to_vec();
        let mut best: Option<PeerId> = None;
        let mut i: usize = 0;
        while i < peers.len()
            invariant
                i <= peers@.len(),
                self.wf(),
                (best is None) == (i == 0),
                best is Some ==> {
                    &&& peers@.contains(best->0)
                    &&& forall|j: int| 0 <= j < i ==> self.recovers_at(best->0) >= self.recovers_at(#[trigger] peers@[j])
                },
            decreases peers@.len() - i,
        {
            let better = match best {
                None => true,
                Some(b) => self.recovery_time(peers[i]) > self.recovery_time(b),
            };
            if better {
                best = Some(peers[i]);
            }
            i = i + 1;
        }
        proof {
            if best is Some {
                assert(peers@.to_set().contains(best->0));
            }
            assert forall|p: PeerId| #[trigger] self.eager_peers@.contains(p) implies best is Some && self.recovers_at(
                best->0,
            ) >= self.recovers_at(p) by {
                assert(peers@.to_set().contains(p));
                assert(peers@[peers@.index_of(p)] == p);
            }
        }
        best
    }

    /// Where somebody listens and every eager peer is suppressed, makes the lazy peer that recovers
    /// first eager. A full mesh gives up the eager peer that recovers last, if that is later. Says
    /// which peer was made eager.
    pub fn rescue_suppressed_eager_peer_if_needed_at(&mut self, now: Instant) -> (r: Option<PeerId>)
        requires
            old(self).wf(),
        ensures
            final(self).wf(),
            match r {
                Some(inn) => {
                    &&& old(self).needs_rescue(now)
                    &&& old(self).earliest_lazy(inn)
                    &&& final(self).only_roles_changed(old(self))
                    &&& final(self).last_opportunistic_graft == old(self).last_opportunistic_graft
                    &&& if old(self).eager_peers@.len() < old(self).max_eager_degree {
                        &&& final(self).eager_peers@ == old(self).eager_peers@.insert(inn)
                        &&& final(self).lazy_peers@ == old(self).lazy_peers@.remove(inn)
                    } else {
                        exists|out: PeerId|
                            {
                                &&& #[trigger] old(self).latest_eager(out)
                                &&& old(self).recovers_at(inn) < old(self).recovers_at(out)
                                &&& final(self).eager_peers@ == old(self).eager_peers@.remove(out).insert(inn)
                                &&& final(self).lazy_peers@ == old(self).lazy_peers@.insert(out).remove(inn)
                            }
                    }
                },
                None => {
                    &&& *final(self) == *old(self)
                    &&& !old(self).needs_rescue(now) || old(self).lazy_peers@.len() == 0 || (old(
                        self,
                    ).eager_peers@.len() >= old(self).max_eager_degree && (forall|inn: PeerId, out: PeerId|
                        #[trigger] old(self).earliest_lazy(inn) && #[trigger] old(self).latest_eager(out) ==> old(
                            self,
                        ).recovers_at(inn) >= old(self).recovers_at(out)))
                },
            },
    {
        if self.live_subscribers == 0 || !self.all_eager_suppressed(now) {
            return None;
        }
        let inn = match self.find_earliest_lazy() {
            Some(peer) => peer,
            None => {
                assert(self.lazy_peers@ =~= Set::empty());
                return None;
            },
        };
        if self.eager_peers.len() >= self.max_eager_degree {
            let out = match self.find_latest_eager() {
                Some(peer) => peer,
                None => {
                    return None;
                },
            };
            if self.recovery_time(inn) >= self.recovery_time(out) {
                return None;
            }
            self.prune_peer(out);
            self.lazy_peers.remove(&inn);
            self.eager_peers.insert(inn);
            assert(old(self).latest_eager(out));
        } else {
            self.lazy_peers.remove(&inn);
            self.eager_peers.insert(inn);
        }
        Some(inn)
    }
}

/// When a topic needs a rescue: somebody listens, and no eager peer is free of a suppression.
pub proof fn rescues_are_for_topics_without_a_usable_peer(state: TopicState, now: Instant)
    ensures
        state.needs_rescue(now) <==> state.live_subscribers > 0 && !(exists|p: PeerId| #[trigger]
            state.eager_peers@.contains(p) && (state.peer_cooling@.dom().contains(p)
                ==> state.peer_cooling@[p].suppressed_until is None && !state.peer_cooling@[p].recovery_probe_in_flight)),
{
    if state.needs_rescue(now) {
        assert forall|p: PeerId| #[trigger] state.eager_peers@.contains(p) implies state.peer_suppressed(p, now) by {}
    }
}

/// Of the lazy peers the one that is free first is chosen, and of the eager ones the one that is
/// free last goes.
pub proof fn rescues_choose_by_the_end_of_the_suppression(state: TopicState, chosen: PeerId, gone: PeerId, other: PeerId)
    requires
        state.earliest_lazy(chosen),
        state.latest_eager(gone),
    ensures
        state.lazy_peers@.contains(chosen) && state.eager_peers@.contains(gone),
        state.lazy_peers@.contains(other) && state.peer_cooling@.dom().contains(other)
            && state.peer_cooling@[other].suppressed_until is Some && state.peer_cooling@.dom().contains(chosen)
            && state.peer_cooling@[chosen].suppressed_until is Some
            ==> state.peer_cooling@[chosen].suppressed_until->0.nanos
            <= state.peer_cooling@[other].suppressed_until->0.nanos,
        state.eager_peers@.contains(other) && state.peer_cooling@.dom().contains(other)
            && state.peer_cooling@[other].suppressed_until is Some && state.peer_cooling@.dom().contains(gone)
            && state.peer_cooling@[gone].suppressed_until is Some
            ==> state.peer_cooling@[gone].suppressed_until->0.nanos
            >= state.peer_cooling@[other].suppressed_until->0.nanos,
{
}

} // verus!
