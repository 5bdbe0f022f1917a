//! Who takes part in a topic: the peers that come and go, and the mesh that is kept among them.

use vstd::prelude::*;

use crate::collections::IdSet;
use crate::ids::{MessageId, PeerId, TopicId};
use crate::mesh::{maintenance_bounds_the_degree, maintenance_keeps_the_peers, MeshScores};
use crate::stats::{PubSubMessageKindStats, PubSubStageStats, SuppressedPeerKey};
use crate::time::Instant;
use crate::topic::TopicState;

verus! {

/// Nothing has changed but that so many demotions and promotions were counted.
pub open spec fn mesh_counted(
    after: PubSubStageStats,
    before: PubSubStageStats,
    pruned: usize,
    grafted: usize,
) -> bool {
    &&& after.message_kinds == (PubSubMessageKindStats {
        prune: before.message_kinds.prune.wrapping_add(pruned as u64),
        graft: before.message_kinds.graft.wrapping_add(grafted as u64),
        ..before.message_kinds
    })
    &&& after == (PubSubStageStats { message_kinds: after.message_kinds, ..before })
}

/// The suppressions that are still reported after the peers of a topic were set: those of connected
/// peers, and those on other topics.
pub open spec fn reported_after_refresh(before: TopicState, topic: TopicId, connected: Seq<PeerId>) -> Set<
    SuppressedPeerKey,
> {
    Set::new(
        |k: SuppressedPeerKey|
            k.topic != topic || connected.contains(k.peer) || !before.peer_cooling@.dom().contains(k.peer),
    )
}

impl TopicState {
    /// Maintains the degree and counts what was demoted and promoted.
    pub fn maintain_counted(&mut self, stats: &mut PubSubStageStats, now: Instant, scores: &MeshScores) -> (r: (
        usize,
        usize,
    ))
        requires
            old(self).wf(),
            old(stats).wf(),
            scores.ranks.wf(),
        ensures
            final(self).wf(),
            final(stats).wf(),
            final(self).maintained_from(old(self), now, *scores, r.0, r.1),
            mesh_counted(*final(stats), *old(stats), r.0, r.1),
    {
        let (pruned, grafted) = self.maintain_degree_at(now, scores);
        stats.message_kinds.record_prunes(pruned);
        stats.message_kinds.record_grafts(grafted);
        (pruned, grafted)
    }

    /// Nothing has changed but that every listed peer has a role: those that had none are lazy.
    pub open spec fn peers_added_from(&self, before: &Self, peers: Seq<PeerId>) -> bool {
        &&& self.eager_peers == before.eager_peers
        &&& self.lazy_peers@ == before.lazy_peers@.union(peers.to_set().difference(before.eager_peers@))
        &&& self.only_roles_changed(before)
        &&& self.last_opportunistic_graft == before.last_opportunistic_graft
    }

    /// Gives every listed peer that has none a lazy role.
    fn take_in(&mut self, peers: &Vec<PeerId>)
        requires
            old(self).wf(),
        ensures
            final(self).wf(),
            final(self).peers_added_from(old(self), peers@),
    {
        let mut i: usize = 0;
        assert(self.lazy_peers@ =~= self.lazy_peers@.union(
            peers@.take(0).to_set().difference(self.eager_peers@),
        ));
        while i < peers.len()
            invariant
                i <= peers@.len(),
                self.wf(),
                self.peers_added_from(old(self), peers@.take(i as int)),
            decreases peers@.len() - i,
        {
            let peer = peers[i];
            self.add_new_peer_lazy(peer);
            proof {
                assert(peers@.take(i + 1) =~= peers@.take(i as int).insert(i as int, peer));
                crate::order::lemma_insert_members(peers@.take(i as int), i as int, peer);
                assert(self.lazy_peers@ =~= old(self).lazy_peers@.union(
                    peers@.take(i + 1).to_set().difference(old(self).eager_peers@),
                ));
            }
            i = i + 1;
        }
        assert(peers@.take(peers@.len() as int) =~= peers@);
    }

    /// Nothing has changed but that exactly the connected peers have a role, and a cooling state if
    /// they had one.
    pub open spec fn peers_set_from(&self, before: &Self, connected: Set<PeerId>) -> bool {
        &&& self.eager_peers@ == before.eager_peers@.intersect(connected)
        &&& self.lazy_peers@ == before.lazy_peers@.intersect(connected).union(
            connected.difference(before.eager_peers@),
        )
        &&& self.peer_cooling@ == before.peer_cooling@.restrict(connected)
        &&& self.last_opportunistic_graft == before.last_opportunistic_graft
        &&& self.max_eager_degree == before.max_eager_degree
        &&& self.same_messages(before)
        &&& self.peer_scores == before.peer_scores
    }

    /// Gives exactly the connected peers a role: others lose theirs, new ones become lazy.
    fn keep_connected(&mut self, stats: &mut PubSubStageStats, topic: TopicId, connected: &Vec<PeerId>)
        requires
            old(self).wf(),
            old(stats).wf(),
        ensures
            final(self).wf(),
            final(stats).wf(),
            final(self).peers_set_from(old(self), connected@.to_set()),
            final(stats).only_suppressions_changed(old(stats)),
            final(stats).suppressed_peers@ == old(stats).suppressed_peers@.restrict(
                reported_after_refresh(*old(self), topic, connected@),
            ),
    {
        let set: IdSet<PeerId> = IdSet::from_list(connected);
        let cooling = self.retain_connected(&set);
        let ghost reported = stats.suppressed_peers@;
        let mut n: usize = 0;
        assert(reported =~= reported.restrict(
            Set::new(|k: SuppressedPeerKey| k.topic != topic || !cooling@.take(0).contains(k.peer)),
        ));
        while n < cooling.len()
            invariant
                n <= cooling@.len(),
                stats.wf(),
                stats.only_suppressions_changed(old(stats)),
                stats.suppressed_peers@ == reported.restrict(
                    Set::new(|k: SuppressedPeerKey| k.topic != topic || !cooling@.take(n as int).contains(k.peer)),
                ),
            decreases cooling@.len() - n,
        {
            let peer = cooling[n];
            stats.clear_peer_suppression(topic, peer);
            proof {
                assert(cooling@.take(n + 1) =~= cooling@.take(n as int).insert(n as int, peer));
                crate::order::lemma_insert_members(cooling@.take(n as int), n as int, peer);
                assert forall|p: PeerId| #[trigger] cooling@.take(n + 1).contains(p) == (cooling@.take(
                    n as int,
                ).contains(p) || p == peer) by {
                    assert(cooling@.take(n + 1).to_set().contains(p) == cooling@.take(n as int).to_set().insert(
                        peer,
                    ).contains(p));
                }
                assert(stats.suppressed_peers@ =~= reported.restrict(
                    Set::new(|k: SuppressedPeerKey| k.topic != topic || !cooling@.take(n + 1).contains(k.peer)),
                ));
            }
            n = n + 1;
        }
        proof {
            assert(cooling@.take(cooling@.len() as int) =~= cooling@);
            assert forall|p: PeerId| #[trigger] set@.contains(p) == connected@.contains(p) by {
            }
            assert(stats.suppressed_peers@ =~= reported.restrict(
                reported_after_refresh(*old(self), topic, connected@),
            ));
        }
        self.take_in(connected);
        assert(self.lazy_peers@ =~= old(self).lazy_peers@.intersect(connected@.to_set()).union(
            connected@.to_set().difference(old(self).eager_peers@),
        ));
    }

    /// The mesh after the listed peers were taken in and the degree was maintained.
    pub open spec fn joined_from(
        &self,
        before: &Self,
        peers: Seq<PeerId>,
        now: Instant,
        scores: MeshScores,
        pruned: usize,
        grafted: usize,
    ) -> bool {
        exists|joined: TopicState|
            {
                &&& joined.wf()
                &&& #[trigger] joined.peers_added_from(before, peers)
                &&& self.maintained_from(&joined, now, scores, pruned, grafted)
            }
    }

    /// Takes the listed peers in and maintains the degree. Says how many peers were demoted and
    /// promoted.
    pub fn initialize_topic_peers(
        &mut self,
        stats: &mut PubSubStageStats,
        peers: &Vec<PeerId>,
        now: Instant,
        scores: &MeshScores,
    ) -> (r: (usize, usize))
        requires
            old(self).wf(),
            old(stats).wf(),
            scores.ranks.wf(),
        ensures
            final(self).wf(),
            final(stats).wf(),
            final(self).joined_from(old(self), peers@, now, *scores, r.0, r.1),
            mesh_counted(*final(stats), *old(stats), r.0, r.1),
    {
        self.take_in(peers);
        self.maintain_counted(stats, now, scores)
    }

    /// The mesh after the roles went to exactly the connected peers and the degree was maintained.
    pub open spec fn refreshed_from(
        &self,
        before: &Self,
        connected: Set<PeerId>,
        now: Instant,
        scores: MeshScores,
        pruned: usize,
        grafted: usize,
    ) -> bool {
        exists|set: TopicState|
            {
                &&& set.wf()
                &&& #[trigger] set.peers_set_from(before, connected)
                &&& self.maintained_from(&set, now, scores, pruned, grafted)
            }
    }

    /// Gives exactly the connected peers a role and maintains the degree; whoever left is no longer
    /// reported as suppressed. Says how many peers were demoted and promoted.
    pub fn set_topic_peers(
        &mut self,
        stats: &mut PubSubStageStats,
        topic: TopicId,
        connected: &Vec<PeerId>,
        now: Instant,
        scores: &MeshScores,
    ) -> (r: (usize, usize))
        requires
            old(self).wf(),
            old(stats).wf(),
            scores.ranks.wf(),
        ensures
            final(self).wf(),
            final(stats).wf(),
            final(self).refreshed_from(old(self), connected@.to_set(), now, *scores, r.0, r.1),
            final(stats).suppressed_peers@ == old(stats).suppressed_peers@.restrict(
                reported_after_refresh(*old(self), topic, connected@),
            ),
            mesh_counted(
                *final(stats),
                (PubSubStageStats { suppressed_peers: final(stats).suppressed_peers, ..*old(stats) }),
                r.0,
                r.1,
            ),
    {
        self.keep_connected(stats, topic, connected);
        self.maintain_counted(stats, now, scores)
    }

    /// An accepted message goes on. Where its sender is new, the degree is maintained first. Lists
    /// the eager peers but the sender, and says whether the sender is one of them.
    pub fn pass_on(
        &mut self,
        stats: &mut PubSubStageStats,
        from: PeerId,
        msg_id: MessageId,
        newly_lazy: bool,
        now: Instant,
        scores: &MeshScores,
    ) -> (r: (Vec<PeerId>, bool))
        requires
            old(self).wf(),
            old(stats).wf(),
            scores.ranks.wf(),
        ensures
            final(self).wf(),
            final(stats).wf(),
            (r.0)@.no_duplicates(),
            (r.0)@.to_set() == final(self).eager_peers@.remove(from),
            r.1 == final(self).eager_peers@.contains(from),
            final(self).pending_ihave@ == old(self).pending_ihave@.push(msg_id),
            !newly_lazy ==> {
                &&& *final(self) == (TopicState { pending_ihave: final(self).pending_ihave, ..*old(self) })
                &&& *final(stats) == *old(stats)
            },
            newly_lazy ==> exists|kept: TopicState, pruned: usize, grafted: usize|
                {
                    &&& #[trigger] kept.maintained_from(old(self), now, *scores, pruned, grafted)
                    &&& *final(self) == (TopicState { pending_ihave: final(self).pending_ihave, ..kept })
                    &&& mesh_counted(*final(stats), *old(stats), pruned, grafted)
                },
    {
        if newly_lazy {
            let (pruned, grafted) = self.maintain_counted(stats, now, scores);
            assert(self.maintained_from(old(self), now, *scores, pruned, grafted));
        }
        self.forward_eager(from, msg_id)
    }
}

/// However many peers join or are set, the mesh has no more eager peers than the most.
pub proof fn many_peers_do_not_exceed_the_degree(
    before: TopicState,
    after: TopicState,
    peers: Seq<PeerId>,
    now: Instant,
    scores: MeshScores,
    pruned: usize,
    grafted: usize,
)
    requires
        before.roles_disjoint(),
        after.joined_from(&before, peers, now, scores, pruned, grafted) || after.refreshed_from(
            &before,
            peers.to_set(),
            now,
            scores,
            pruned,
            grafted,
        ),
    ensures
        after.eager_peers@.len() <= after.max_eager_degree,
        after.max_eager_degree == before.max_eager_degree,
        after.roles_disjoint(),
{
    let set = if after.joined_from(&before, peers, now, scores, pruned, grafted) {
        choose|joined: TopicState|
            {
                &&& joined.wf()
                &&& #[trigger] joined.peers_added_from(&before, peers)
                &&& after.maintained_from(&joined, now, scores, pruned, grafted)
            }
    } else {
        choose|set: TopicState|
            {
                &&& set.wf()
                &&& #[trigger] set.peers_set_from(&before, peers.to_set())
                &&& after.maintained_from(&set, now, scores, pruned, grafted)
            }
    };
    maintenance_bounds_the_degree(set, after, now, scores, pruned, grafted);
    maintenance_keeps_the_peers(set, after, now, scores, pruned, grafted);
}

/// After the peers of a topic were set, exactly the connected ones have a role, and one that is
/// suppressed is still so.
pub proof fn exactly_connected_peers_have_roles(
    before: TopicState,
    after: TopicState,
    connected: Set<PeerId>,
    now: Instant,
    scores: MeshScores,
    pruned: usize,
    grafted: usize,
    peer: PeerId,
)
    requires
        after.refreshed_from(&before, connected, now, scores, pruned, grafted),
    ensures
        connected.contains(peer) <==> after.eager_peers@.contains(peer) || after.lazy_peers@.contains(peer),
        connected.contains(peer) ==> after.peer_suppressed(peer, now) == before.peer_suppressed(peer, now),
        before.roles_disjoint() ==> after.roles_disjoint(),
{
    let set = choose|set: TopicState|
        {
            &&& set.wf()
            &&& #[trigger] set.peers_set_from(&before, connected)
            &&& after.maintained_from(&set, now, scores, pruned, grafted)
        };
    maintenance_keeps_the_peers(set, after, now, scores, pruned, grafted);
    assert(after.eager_peers@.union(after.lazy_peers@).contains(peer) == set.eager_peers@.union(
        set.lazy_peers@,
    ).contains(peer));
}

/// Whoever is listed has a role once the peers of a topic were taken in, and nobody else gets or
/// loses one.
pub proof fn listed_peers_have_a_role(
    before: TopicState,
    after: TopicState,
    peers: Seq<PeerId>,
    now: Instant,
    scores: MeshScores,
    pruned: usize,
    grafted: usize,
    peer: PeerId,
)
    requires
        after.joined_from(&before, peers, now, scores, pruned, grafted),
    ensures
        after.eager_peers@.contains(peer) || after.lazy_peers@.contains(peer) <==> peers.contains(peer)
            || before.eager_peers@.contains(peer) || before.lazy_peers@.contains(peer),
        after.peer_cooling == before.peer_cooling,
        after.peer_scores == before.peer_scores,
        after.message_cache == before.message_cache,
        after.pending_ihave == before.pending_ihave,
{
    let joined = choose|joined: TopicState|
        {
            &&& joined.wf()
            &&& #[trigger] joined.peers_added_from(&before, peers)
            &&& after.maintained_from(&joined, now, scores, pruned, grafted)
        };
    maintenance_keeps_the_peers(joined, after, now, scores, pruned, grafted);
    assert(after.eager_peers@.union(after.lazy_peers@).contains(peer) == joined.eager_peers@.union(
        joined.lazy_peers@,
    ).contains(peer));
    assert(peers.to_set().contains(peer) == peers.contains(peer));
}

/// Setting the peers of a topic keeps the cooling states of those that stay, and no others.
pub proof fn refreshes_keep_the_cooling_of_who_stays(
    before: TopicState,
    after: TopicState,
    connected: Set<PeerId>,
    now: Instant,
    scores: MeshScores,
    pruned: usize,
    grafted: usize,
    peer: PeerId,
)
    requires
        after.refreshed_from(&before, connected, now, scores, pruned, grafted),
    ensures
        after.peer_cooling@.dom().contains(peer) <==> before.peer_cooling@.dom().contains(peer) && connected.contains(
            peer,
        ),
        after.peer_cooling@.dom().contains(peer) ==> after.peer_cooling@[peer] == before.peer_cooling@[peer],
        after.peer_scores == before.peer_scores,
        after.message_cache == before.message_cache,
{
    let set = choose|set: TopicState|
        {
            &&& set.wf()
            &&& #[trigger] set.peers_set_from(&before, connected)
            &&& after.maintained_from(&set, now, scores, pruned, grafted)
        };
    maintenance_keeps_the_peers(set, after, now, scores, pruned, grafted);
}

/// What is counted of a maintenance: every demotion and every promotion, and nothing else.
pub proof fn moves_are_counted(after: PubSubStageStats, before: PubSubStageStats, pruned: usize, grafted: usize)
    requires
        mesh_counted(after, before, pruned, grafted),
        before.message_kinds.prune + pruned <= u64::MAX,
        before.message_kinds.graft + grafted <= u64::MAX,
    ensures
        after.message_kinds.prune == before.message_kinds.prune + pruned,
        after.message_kinds.graft == before.message_kinds.graft + grafted,
        after.message_kinds.eager == before.message_kinds.eager,
        after.message_kinds.decode_failed == before.message_kinds.decode_failed,
        after.suppressed_peers == before.suppressed_peers,
        after.outbound_budget_exhausted == before.outbound_budget_exhausted,
{
}

} // verus!
