//! What follows from knowing which peers are connected.

use vstd::prelude::*;

use crate::collections::{IdMap, IdSet};
use crate::ids::{PeerId, TopicId};
use crate::stats::{PubSubStageStats, SuppressedPeerKey};
use crate::topic::TopicState;
use crate::topics::topics_wf;

verus! {

/// What is known of the connected peers. An empty list means that nothing is known, and then no
/// peer counts as disconnected.
pub fn connected_snapshot(connected: &Vec<PeerId>) -> (r: Option<IdSet<PeerId>>)
    ensures
        match r {
            None => connected@.len() == 0,
            Some(set) => connected@.len() > 0 && set.wf() && set@ == connected@.to_set(),
        },
{
    if connected.len() == 0 {
        None
    } else {
        Some(IdSet::from_list(connected))
    }
}

/// The suppressions of connected peers, and those on other topics.
pub open spec fn reported_while_connected(topics: Set<TopicId>, before: Map<TopicId, TopicState>, connected: Set<PeerId>) -> Set<
    SuppressedPeerKey,
> {
    Set::new(
        |k: SuppressedPeerKey|
            !topics.contains(k.topic) || connected.contains(k.peer) || !before[k.topic].peer_cooling@.dom().contains(
                k.peer,
            ),
    )
}

/// Drops every peer that is not connected from every topic, and its suppression from the reports.
/// A peer that leaves does not count as one that was demoted.
pub fn prune_disconnected_peers(
    topics: &mut IdMap<TopicId, TopicState>,
    connected: &IdSet<PeerId>,
    stats: &mut PubSubStageStats,
)
    requires
        topics_wf(*old(topics)),
        connected.wf(),
        old(stats).wf(),
    ensures
        topics_wf(*final(topics)),
        final(stats).wf(),
        final(topics)@.dom() == old(topics)@.dom(),
        forall|t: TopicId| #[trigger]
            old(topics)@.dom().contains(t) ==> final(topics)@[t].retained_from(&old(topics)@[t], connected@),
        final(stats).suppressed_peers@ == old(stats).suppressed_peers@.restrict(
            reported_while_connected(old(topics)@.dom(), old(topics)@, connected@),
        ),
        final(stats).only_suppressions_changed(old(stats)),
{
    let keys: Vec<TopicId> = topics.keys();
    let ghost all = topics@;
    let ghost reported = stats.suppressed_peers@;
    let mut i: usize = 0;
    assert(keys@.take(0) =~= Seq::empty());
    assert(reported =~= reported.restrict(reported_while_connected(keys@.take(0).to_set(), all, connected@)));
    while i < keys.len()
        invariant
            i <= keys@.len(),
            keys@.no_duplicates(),
            keys@.to_set() == all.dom(),
            all == old(topics)@,
            connected.wf(),
            topics_wf(*topics),
            stats.wf(),
            topics@.dom() == all.dom(),
            forall|j: int| i <= j < keys@.len() ==> topics@[#[trigger] keys@[j]] == all[keys@[j]],
            forall|j: int| 0 <= j < i ==> topics@[#[trigger] keys@[j]].retained_from(&all[keys@[j]], connected@),
            stats.suppressed_peers@ == reported.restrict(
                reported_while_connected(keys@.take(i as int).to_set(), all, connected@),
            ),
            stats.only_suppressions_changed(old(stats)),
        decreases keys@.len() - i,
    {
        let key = keys[i];
        proof {
            assert(keys@.to_set().contains(key));
            assert(keys@.take(i + 1).drop_last() =~= keys@.take(i as int));
            assert(keys@.take(i + 1).last() == key);
            assert(keys@.take(i + 1) =~= keys@.take(i as int).insert(i as int, key));
            crate::order::lemma_insert_members(keys@.take(i as int), i as int, key);
        }
        if let Some(state) = topics.get_mut(&key) {
            let cooling = state.retain_connected(connected);
            let ghost start = stats.suppressed_peers@;
            let ghost counted = *stats;
            let mut n: usize = 0;
            assert(start =~= start.restrict(
                Set::new(|k: SuppressedPeerKey| k.topic != key || !cooling@.take(0).contains(k.peer)),
            ));
            while n < cooling.len()
                invariant
                    n <= cooling@.len(),
                    stats.wf(),
                    stats.only_suppressions_changed(&counted),
                    stats.suppressed_peers@ == start.restrict(
                        Set::new(
                            |k: SuppressedPeerKey| k.topic != key || !cooling@.take(n as int).contains(k.peer),
                        ),
                    ),
                decreases cooling@.len() - n,
            {
                let peer = cooling[n];
                stats.clear_peer_suppression(key, peer);
                proof {
                    assert(cooling@.take(n + 1) =~= cooling@.take(n as int).insert(n as int, peer));
                    crate::order::lemma_insert_members(cooling@.take(n as int), n as int, peer);
                    assert forall|p: PeerId| #[trigger] cooling@.take(n + 1).contains(p) == (cooling@.take(
                        n as int,
                    ).contains(p) || p == peer) by {
                        assert(cooling@.take(n + 1).to_set().contains(p) == cooling@.take(n as int).to_set().insert(
                            peer,
                        ).contains(p));
                    }
                    assert(stats.suppressed_peers@ =~= start.restrict(
                        Set::new(|k: SuppressedPeerKey| k.topic != key || !cooling@.take(n + 1).contains(k.peer)),
                    ));
                }
                n = n + 1;
            }
            assert(cooling@.take(cooling@.len() as int) =~= cooling@);
        }
        proof {
            assert(topics@.dom() =~= all.dom());
            assert(stats.suppressed_peers@ =~= reported.restrict(
                reported_while_connected(keys@.take(i + 1).to_set(), all, connected@),
            ));
        }
        i = i + 1;
    }
    proof {
        assert(keys@.take(keys@.len() as int) =~= keys@);
        assert forall|t: TopicId| #[trigger] all.dom().contains(t) implies keys@.contains(t) && keys@[keys@.index_of(t)]
            == t by {
            assert(keys@.to_set().contains(t));
        }
    }
}

/// After the peers that are not connected were dropped, every eager and lazy peer is connected, and
/// no connected peer has lost its role.
pub proof fn only_connected_peers_stay(before: TopicState, after: TopicState, connected: Set<PeerId>, peer: PeerId)
    requires
        after.retained_from(&before, connected),
    ensures
        after.eager_peers@.contains(peer) <==> before.eager_peers@.contains(peer) && connected.contains(peer),
        after.lazy_peers@.contains(peer) <==> before.lazy_peers@.contains(peer) && connected.contains(peer),
        before.roles_disjoint() ==> after.roles_disjoint(),
{
}

} // verus!
