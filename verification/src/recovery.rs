//! Announcements, requests and reconciliations: how a node gets and gives what a peer missed.

use vstd::prelude::*;

use crate::cache::{can_be_had, counted, fresh_at, named_in, BoundedMessageCache, CachedMessage};
use crate::collections::{IdMap, IdSet};
use crate::ids::{MessageId, PeerId, TopicId};
use crate::inbound::EagerOutcome;
use crate::membership::mesh_counted;
use crate::mesh::{maintenance_bounds_the_degree, maintenance_keeps_the_peers, MeshScores};
use crate::message::MessageHeader;
use crate::order::picks;
use crate::recency::{distinct, holds, in_front, value_of, without};
use crate::score::PeerScore;
use crate::stats::PubSubStageStats;
use crate::time::{elapsed_between, Duration, Instant};
use crate::topic::{score_or_new, TopicState};
use crate::topics::{only_topic_changed, topics_wf};

verus! {

/// The announced messages that are neither cached nor asked for, each once.
pub open spec fn newly_wanted(
    announced: Seq<MessageId>,
    cached: Seq<(MessageId, Instant)>,
    outstanding: Map<MessageId, (PeerId, Instant)>,
) -> Seq<MessageId>
    decreases announced.len(),
{
    if announced.len() == 0 {
        Seq::empty()
    } else {
        let before = newly_wanted(announced.drop_last(), cached, outstanding);
        let id = announced.last();
        if holds(cached, id) || outstanding.dom().contains(id) || before.contains(id) {
            before
        } else {
            before.push(id)
        }
    }
}

/// The messages asked for, with some more of one peer.
pub open spec fn also_asked(
    outstanding: Map<MessageId, (PeerId, Instant)>,
    ids: Seq<MessageId>,
    peer: PeerId,
    now: Instant,
) -> Map<MessageId, (PeerId, Instant)> {
    Map::new(
        |id: MessageId| outstanding.dom().contains(id) || ids.contains(id),
        |id: MessageId| if outstanding.dom().contains(id) { outstanding[id] } else { (peer, now) },
    )
}

/// A score after so many requests.
pub open spec fn requested_times(score: PeerScore, n: nat) -> PeerScore
    decreases n,
{
    if n == 0 { score } else { requested_times(score, (n - 1) as nat).requested() }
}

/// The scores after so many requests to one peer.
pub open spec fn scores_after_requests(
    scores: Map<PeerId, PeerScore>,
    peer: PeerId,
    n: nat,
    now: Instant,
) -> Map<PeerId, PeerScore> {
    if n == 0 { scores } else { scores.insert(peer, requested_times(score_or_new(scores, peer, now), n)) }
}

/// The cache order after some messages were looked up, one after the other.
pub open spec fn looked_up(order: Seq<(MessageId, Instant)>, ids: Seq<MessageId>) -> Seq<(MessageId, Instant)>
    decreases ids.len(),
{
    if ids.len() == 0 {
        order
    } else {
        let before = looked_up(order, ids.drop_last());
        let id = ids.last();
        if holds(before, id) { in_front(without(before, id), id, value_of(before, id)) } else { before }
    }
}

/// Whether an identifier is cached.
pub open spec fn is_cached(order: Seq<(MessageId, Instant)>) -> spec_fn(MessageId) -> bool {
    |id: MessageId| holds(order, id)
}

/// Whether an identifier is not cached.
pub open spec fn is_missing(order: Seq<(MessageId, Instant)>) -> spec_fn(MessageId) -> bool {
    |id: MessageId| !holds(order, id)
}

/// Some messages are copies of the cached ones with these identifiers.
pub open spec fn copies_of(
    copies: Seq<CachedMessage>,
    ids: Seq<MessageId>,
    messages: Map<MessageId, CachedMessage>,
) -> bool {
    &&& copies.len() == ids.len()
    &&& forall|i: int|
        0 <= i < copies.len() ==> (#[trigger] copies[i]).payload@ == messages[ids[i]].payload@ && copies[i].header
            == messages[ids[i]].header
}

impl TopicState {
    /// The cache after some messages were looked up in it.
    pub open spec fn cache_after_lookups(&self, before: &Self, ids: Seq<MessageId>, now: Instant) -> bool {
        let fresh = fresh_at(before.message_cache.order(), now, before.message_cache.max_age());
        if ids.len() == 0 {
            self.message_cache == before.message_cache
        } else {
            &&& self.message_cache.order() == looked_up(fresh, ids)
            &&& self.message_cache.messages() == named_in(before.message_cache.messages(), fresh)
            &&& self.message_cache.same_bounds(&before.message_cache)
            &&& self.message_cache.evicted_by_age() == counted(
                before.message_cache.evicted_by_age(),
                (before.message_cache.order().len() - fresh.len()) as nat,
            )
            &&& self.message_cache.evicted_by_bytes() == before.message_cache.evicted_by_bytes()
            &&& self.message_cache.evicted_by_count() == before.message_cache.evicted_by_count()
        }
    }

    /// Looks messages up in the cache; hands out copies of those that are there and not too old.
    fn serve_cached(&mut self, ids: &Vec<MessageId>, now: Instant) -> (r: Vec<CachedMessage>)
        requires
            old(self).wf(),
        ensures
            final(self).wf(),
            ({
                let before = old(self).message_cache;
                let fresh = fresh_at(before.order(), now, before.max_age());
                copies_of(r@, ids@.filter(is_cached(fresh)), before.messages())
            }),
            final(self).cache_after_lookups(old(self), ids@, now),
            final(self).same_mesh(old(self)),
            final(self).pending_ihave == old(self).pending_ihave,
            final(self).outstanding_iwants == old(self).outstanding_iwants,
            final(self).live_subscribers == old(self).live_subscribers,
            final(self).replay_cache == old(self).replay_cache,
            final(self).last_activity == old(self).last_activity,
            final(self).peer_scores == old(self).peer_scores,
            final(self).peer_cooling == old(self).peer_cooling,
    {
        let ghost cache = self.message_cache;
        let ghost fresh = fresh_at(cache.order(), now, cache.max_age());
        let mut r: Vec<CachedMessage> = Vec::new();
        let mut i: usize = 0;
        proof {
            assert(ids@.take(0) =~= Seq::empty());
            reveal(Seq::filter);
            crate::cache::cache_keeps_its_bounds(cache);
            crate::recency::lemma_filter_distinct(
                cache.order(),
                |e: (MessageId, Instant)| elapsed_between(now, e.1) < cache.max_age().nanos,
            );
        }
        while i < ids.len()
            invariant
                i <= ids@.len(),
                self.wf(),
                cache == old(self).message_cache,
                fresh == fresh_at(cache.order(), now, cache.max_age()),
                distinct(cache.order()),
                distinct(fresh),
                copies_of(r@, ids@.take(i as int).filter(is_cached(fresh)), cache.messages()),
                self.cache_after_lookups(old(self), ids@.take(i as int), now),
                self.same_mesh(old(self)),
                self.pending_ihave == old(self).pending_ihave,
                self.outstanding_iwants == old(self).outstanding_iwants,
                self.live_subscribers == old(self).live_subscribers,
                self.replay_cache == old(self).replay_cache,
                self.last_activity == old(self).last_activity,
                self.peer_scores == old(self).peer_scores,
                self.peer_cooling == old(self).peer_cooling,
            decreases ids@.len() - i,
        {
            let id = ids[i];
            let ghost order = self.message_cache.order();
            let ghost held = self.message_cache.messages();
            let found = self.get_message(&id, now);
            proof {
                let done = ids@.take(i as int);
                let next = ids@.take(i + 1);
                assert(next.drop_last() =~= done);
                assert(next.last() == id);
                reveal(Seq::filter);
                lemma_lookups_keep(fresh, done);
                lemma_looked_up_fresh(cache.order(), done, now, cache.max_age());
                if i > 0 {
                    assert(order == looked_up(fresh, done));
                    assert(fresh_at(order, now, cache.max_age()) == order);
                    assert(named_in(held, order) =~= named_in(cache.messages(), fresh));
                } else {
                    assert(looked_up(fresh, done) == fresh);
                }
                assert(holds(looked_up(fresh, done), id) == holds(fresh, id));
            }
            match found {
                Some(message) => {
                    r.push(message);
                },
                None => {},
            }
            proof {
                let next = ids@.take(i + 1);
                let served = ids@.take(i as int).filter(is_cached(fresh));
                reveal(Seq::filter);
                assert(copies_of(r@, next.filter(is_cached(fresh)), cache.messages()));
                assert(self.cache_after_lookups(old(self), next, now));
            }
            i = i + 1;
        }
        assert(ids@.take(ids@.len() as int) =~= ids@);
        r
    }

    /// Takes an announcement; lists the messages that are now to be asked of its sender.
    pub fn receive_ihave(&mut self, from: PeerId, msg_ids: &Vec<MessageId>, now: Instant) -> (r: Vec<MessageId>)
        requires
            old(self).wf(),
        ensures
            final(self).wf(),
            r@ == newly_wanted(msg_ids@, old(self).message_cache.order(), old(self).outstanding_iwants@),
            final(self).outstanding_iwants@ == also_asked(old(self).outstanding_iwants@, r@, from, now),
            final(self).peer_scores@ == scores_after_requests(old(self).peer_scores@, from, r@.len(), now),
            final(self).last_activity == now,
            final(self).same_mesh(old(self)),
            final(self).message_cache == old(self).message_cache,
            final(self).pending_ihave == old(self).pending_ihave,
            final(self).live_subscribers == old(self).live_subscribers,
            final(self).replay_cache == old(self).replay_cache,
            final(self).peer_cooling == old(self).peer_cooling,
    {
        self.touch(now);
        let ghost asked = self.outstanding_iwants@;
        let ghost order = self.message_cache.order();
        let mut r: Vec<MessageId> = Vec::new();
        let mut i: usize = 0;
        assert(msg_ids@.take(0) =~= Seq::empty());
        assert(asked =~= also_asked(asked, r@, from, now));
        while i < msg_ids.len()
            invariant
                i <= msg_ids@.len(),
                self.wf(),
                asked == old(self).outstanding_iwants@,
                order == old(self).message_cache.order(),
                r@ == newly_wanted(msg_ids@.take(i as int), order, asked),
                self.outstanding_iwants@ == also_asked(asked, r@, from, now),
                self.peer_scores@ == scores_after_requests(old(self).peer_scores@, from, r@.len(), now),
                self.last_activity == now,
                self.same_mesh(old(self)),
                self.message_cache == old(self).message_cache,
                self.pending_ihave == old(self).pending_ihave,
                self.live_subscribers == old(self).live_subscribers,
                self.replay_cache == old(self).replay_cache,
                self.peer_cooling == old(self).peer_cooling,
            decreases msg_ids@.len() - i,
        {
            let id = msg_ids[i];
            proof {
                assert(msg_ids@.take(i + 1).drop_last() =~= msg_ids@.take(i as int));
                assert(msg_ids@.take(i + 1).last() == id);
            }
            if !self.has_message(&id) && !self.outstanding_iwants.contains_key(&id) {
                let ghost before = r@;
                r.push(id);
                self.outstanding_iwants.insert(id, (from, now));
                let mut score = match self.peer_scores.get(&from) {
                    Some(score) => *score,
                    None => PeerScore::new_at(now),
                };
                score.record_iwant_request();
                self.peer_scores.insert(from, score);
                proof {
                    assert(r@ =~= before.insert(before.len() as int, id));
                    crate::order::lemma_insert_members(before, before.len() as int, id);
                    assert forall|x: MessageId| #[trigger] r@.contains(x) == (before.contains(x) || x == id) by {
                        assert(r@.to_set().contains(x) == before.to_set().insert(id).contains(x));
                    }
                    assert(self.outstanding_iwants@ =~= also_asked(asked, r@, from, now));
                    reveal_with_fuel(requested_times, 2);
                    assert(self.peer_scores@ =~= scores_after_requests(
                        old(self).peer_scores@,
                        from,
                        r@.len(),
                        now,
                    ));
                }
            }
            i = i + 1;
        }
        assert(msg_ids@.take(msg_ids@.len() as int) =~= msg_ids@);
        r
    }

    /// The topic after a request: the messages that can still be had were looked up, and whoever
    /// gets one is at least a lazy peer.
    pub open spec fn request_served(&self, before: &Self, from: PeerId, ids: Seq<MessageId>, now: Instant) -> bool {
        let fresh = fresh_at(before.message_cache.order(), now, before.message_cache.max_age());
        let served = ids.filter(is_cached(fresh));
        &&& self.cache_after_lookups(before, ids, now)
        &&& self.eager_peers == before.eager_peers
        &&& self.lazy_peers@ == (if served.len() > 0 && !before.eager_peers@.contains(from) {
            before.lazy_peers@.insert(from)
        } else {
            before.lazy_peers@
        })
        &&& self.last_opportunistic_graft == before.last_opportunistic_graft
        &&& self.max_eager_degree == before.max_eager_degree
        &&& self.last_activity == now
        &&& self.pending_ihave == before.pending_ihave
        &&& self.outstanding_iwants == before.outstanding_iwants
        &&& self.live_subscribers == before.live_subscribers
        &&& self.replay_cache == before.replay_cache
        &&& self.peer_scores == before.peer_scores
        &&& self.peer_cooling == before.peer_cooling
    }

    /// The topic after a request that was served, and after the maintenance that follows one.
    pub open spec fn request_answered(
        &self,
        before: &Self,
        from: PeerId,
        ids: Seq<MessageId>,
        now: Instant,
        scores: MeshScores,
        pruned: usize,
        grafted: usize,
    ) -> bool {
        exists|served: TopicState|
            {
                &&& served.wf()
                &&& #[trigger] served.request_served(before, from, ids, now)
                &&& self.maintained_from(&served, now, scores, pruned, grafted)
            }
    }

    fn serve_request(&mut self, from: PeerId, msg_ids: &Vec<MessageId>, now: Instant) -> (r: Vec<CachedMessage>)
        requires
            old(self).wf(),
        ensures
            final(self).wf(),
            ({
                let before = old(self).message_cache;
                let fresh = fresh_at(before.order(), now, before.max_age());
                copies_of(r@, msg_ids@.filter(is_cached(fresh)), before.messages())
            }),
            final(self).request_served(old(self), from, msg_ids@, now),
    {
        self.touch(now);
        let r = self.serve_cached(msg_ids, now);
        if r.len() > 0 {
            self.add_new_peer_lazy(from);
            assert(old(self).lazy_peers@.contains(from) ==> old(self).lazy_peers@.insert(from)
                =~= old(self).lazy_peers@);
        }
        r
    }

    /// Takes a request; hands out copies of the messages that can still be had. Whoever gets one is
    /// at least a lazy peer from then on, and the degree is maintained.
    pub fn receive_iwant(
        &mut self,
        stats: &mut PubSubStageStats,
        from: PeerId,
        msg_ids: &Vec<MessageId>,
        now: Instant,
        scores: &MeshScores,
    ) -> (r: Vec<CachedMessage>)
        requires
            old(self).wf(),
            old(stats).wf(),
            scores.ranks.wf(),
        ensures
            final(self).wf(),
            final(stats).wf(),
            ({
                let before = old(self).message_cache;
                let fresh = fresh_at(before.order(), now, before.max_age());
                copies_of(r@, msg_ids@.filter(is_cached(fresh)), before.messages())
            }),
            r@.len() == 0 ==> {
                &&& final(self).request_served(old(self), from, msg_ids@, now)
                &&& *final(stats) == *old(stats)
            },
            r@.len() > 0 ==> exists|pruned: usize, grafted: usize|
                {
                    &&& #[trigger] final(self).request_answered(
                        old(self),
                        from,
                        msg_ids@,
                        now,
                        *scores,
                        pruned,
                        grafted,
                    )
                    &&& mesh_counted(*final(stats), *old(stats), pruned, grafted)
                },
    {
        let r = self.serve_request(from, msg_ids, now);
        if r.len() > 0 {
            let (pruned, grafted) = self.maintain_counted(stats, now, scores);
            assert(self.request_answered(old(self), from, msg_ids@, now, *scores, pruned, grafted));
        }
        r
    }

    /// Takes the list of what a peer has. Hands out copies of the messages that it lacks and lists
    /// the ones that this node lacks.
    pub fn receive_digest(&mut self, their_ids: &Vec<MessageId>, now: Instant) -> (r: (
        Vec<CachedMessage>,
        Vec<MessageId>,
    ))
        requires
            old(self).wf(),
        ensures
            final(self).wf(),
            ({
                let before = old(self).message_cache;
                let fresh = fresh_at(before.order(), now, before.max_age());
                exists|lacking: Seq<MessageId>|
                    {
                        &&& lacking.no_duplicates()
                        &&& forall|id: MessageId| #[trigger]
                            lacking.contains(id) <==> holds(before.order(), id) && !their_ids@.contains(id)
                        &&& copies_of((r.0)@, lacking.filter(is_cached(fresh)), before.messages())
                        &&& #[trigger] final(self).cache_after_lookups(old(self), lacking, now)
                    }
            }),
            (r.1)@.no_duplicates(),
            forall|id: MessageId| #[trigger]
                (r.1)@.contains(id) <==> their_ids@.contains(id) && !holds(old(self).message_cache.order(), id),
            final(self).last_activity == now,
            final(self).same_mesh(old(self)),
            final(self).pending_ihave == old(self).pending_ihave,
            final(self).outstanding_iwants == old(self).outstanding_iwants,
            final(self).live_subscribers == old(self).live_subscribers,
            final(self).replay_cache == old(self).replay_cache,
            final(self).peer_scores == old(self).peer_scores,
            final(self).peer_cooling == old(self).peer_cooling,
    {
        self.touch(now);
        let ghost order = self.message_cache.order();
        let theirs: IdSet<MessageId> = IdSet::from_list(their_ids);
        let ours: Vec<MessageId> = self.cached_message_ids();
        proof {
            crate::cache::cache_keeps_its_bounds(self.message_cache);
            lemma_listed_ids(order, ours@);
        }
        let our_set: IdSet<MessageId> = IdSet::from_list(&ours);
        let lacking = members_outside(&our_set, &theirs);
        let needed = members_outside(&theirs, &our_set);
        proof {
            assert forall|id: MessageId| #[trigger] lacking@.contains(id) <==> holds(order, id) && !their_ids@.contains(
                id,
            ) by {
                assert(lacking@.to_set().contains(id) == lacking@.contains(id));
                assert(our_set@.contains(id) == ours@.contains(id));
                assert(theirs@.contains(id) == their_ids@.contains(id));
            }
            assert forall|id: MessageId| #[trigger] needed@.contains(id) <==> their_ids@.contains(id) && !holds(
                order,
                id,
            ) by {
                assert(needed@.to_set().contains(id) == needed@.contains(id));
                assert(our_set@.contains(id) == ours@.contains(id));
                assert(theirs@.contains(id) == their_ids@.contains(id));
            }
        }
        let served = self.serve_cached(&lacking, now);
        assert(self.cache_after_lookups(old(self), lacking@, now));
        (served, needed)
    }

    /// The messages among some that are not cached, in their order.
    pub fn missing_among(&self, ids: &Vec<MessageId>) -> (r: Vec<MessageId>)
        ensures
            r@ == ids@.filter(is_missing(self.message_cache.order())),
    {
        let mut r: Vec<MessageId> = Vec::new();
        let mut i: usize = 0;
        proof {
            reveal(Seq::filter);
        }
        assert(r@ =~= ids@.take(0).filter(is_missing(self.message_cache.order())));
        while i < ids.len()
            invariant
                i <= ids@.len(),
                r@ == ids@.take(i as int).filter(is_missing(self.message_cache.order())),
            decreases ids@.len() - i,
        {
            let id = ids[i];
            proof {
                reveal(Seq::filter);
                assert(ids@.take(i + 1).drop_last() =~= ids@.take(i as int));
                assert(ids@.take(i + 1).last() == id);
            }
            if !self.has_message(&id) {
                r.push(id);
            }
            i = i + 1;
        }
        assert(ids@.take(ids@.len() as int) =~= ids@);
        r
    }
}

/// Takes the list of what this node lacks according to a peer; lists what it does lack. A node
/// without the topic lacks all of it.
pub fn receive_response(
    topics: &mut IdMap<TopicId, TopicState>,
    topic: TopicId,
    missing_ids: &Vec<MessageId>,
    now: Instant,
) -> (r: Vec<MessageId>)
    requires
        topics_wf(*old(topics)),
    ensures
        topics_wf(*final(topics)),
        only_topic_changed(final(topics)@, old(topics)@, topic),
        old(topics)@.dom().contains(topic) ==> {
            &&& r@ == missing_ids@.filter(is_missing(old(topics)@[topic].message_cache.order()))
            &&& final(topics)@[topic] == (TopicState { last_activity: now, ..old(topics)@[topic] })
        },
        !old(topics)@.dom().contains(topic) ==> r@ == missing_ids@,
{
    match topics.get_mut(&topic) {
        Some(state) => {
            state.touch(now);
            let r = state.missing_among(missing_ids);
            assert(topics@.dom() =~= old(topics)@.dom());
            r
        },
        None => copy_ids(missing_ids),
    }
}

/// The same identifiers again.
pub(crate) fn copy_ids(ids: &Vec<MessageId>) -> (r: Vec<MessageId>)
    ensures
        r@ == ids@,
{
    let mut r: Vec<MessageId> = Vec::new();
    let mut i: usize = 0;
    while i < ids.len()
        invariant
            i <= ids@.len(),
            r@ == ids@.take(i as int),
        decreases ids@.len() - i,
    {
        r.push(ids[i]);
        assert(r@ =~= ids@.take(i + 1));
        i = i + 1;
    }
    assert(r@ =~= ids@);
    r
}

/// The members of one set that are not in another, each once.
fn members_outside(set: &IdSet<MessageId>, other: &IdSet<MessageId>) -> (r: Vec<MessageId>)
    requires
        set.wf(),
        other.wf(),
    ensures
        r@.no_duplicates(),
        r@.to_set() == set@.difference(other@),
{
    let all = set.to_vec();
    let mut rest: IdSet<MessageId> = IdSet::new();
    let mut i: usize = 0;
    assert(rest@ =~= all@.take(0).to_set().difference(other@));
    while i < all.len()
        invariant
            i <= all@.len(),
            other.wf(),
            rest.wf(),
            rest@ == all@.take(i as int).to_set().difference(other@),
        decreases all@.len() - i,
    {
        let id = all[i];
        if !other.contains(&id) {
            rest.insert(id);
        }
        proof {
            assert(all@.take(i + 1) =~= all@.take(i as int).insert(i as int, id));
            crate::order::lemma_insert_members(all@.take(i as int), i as int, id);
            assert(rest@ =~= all@.take(i + 1).to_set().difference(other@));
        }
        i = i + 1;
    }
    assert(all@.take(all@.len() as int) =~= all@);
    rest.to_vec()
}

proof fn lemma_listed_ids(order: Seq<(MessageId, Instant)>, ids: Seq<MessageId>)
    requires
        ids == order.map_values(|e: (MessageId, Instant)| e.0),
    ensures
        forall|id: MessageId| #[trigger] ids.contains(id) <==> holds(order, id),
{
    assert forall|id: MessageId| #[trigger] ids.contains(id) <==> holds(order, id) by {
        if ids.contains(id) {
            let i = ids.index_of(id);
            assert(order[i].0 == id);
        }
        if holds(order, id) {
            let i = choose|i: int| 0 <= i < order.len() && (#[trigger] order[i]).0 == id;
            assert(ids[i] == id);
        }
    }
}

/// Looking messages up loses none and adds none.
proof fn lemma_lookups_keep(order: Seq<(MessageId, Instant)>, ids: Seq<MessageId>)
    requires
        distinct(order),
    ensures
        distinct(looked_up(order, ids)),
        looked_up(order, ids).len() == order.len(),
        forall|k: MessageId| #[trigger] holds(looked_up(order, ids), k) <==> holds(order, k),
    decreases ids.len(),
{
    if ids.len() > 0 {
        lemma_lookups_keep(order, ids.drop_last());
        let before = looked_up(order, ids.drop_last());
        if holds(before, ids.last()) {
            crate::cache::lemma_promote(before, Map::empty(), ids.last());
        }
    }
}

proof fn lemma_looked_up_fresh(
    order: Seq<(MessageId, Instant)>,
    ids: Seq<MessageId>,
    now: Instant,
    max_age: Duration,
)
    requires
        distinct(order),
    ensures
        ({
            let fresh = fresh_at(order, now, max_age);
            fresh_at(looked_up(fresh, ids), now, max_age) == looked_up(fresh, ids)
        }),
{
    let fresh = fresh_at(order, now, max_age);
    let pred = |e: (MessageId, Instant)| elapsed_between(now, e.1) < max_age.nanos;
    crate::recency::lemma_filter_distinct(order, pred);
    crate::cache::only_fresh_entries_survive(order, now, max_age);
    assert forall|i: int| 0 <= i < fresh.len() implies elapsed_between(now, (#[trigger] fresh[i]).1) < max_age.nanos by {
        assert(fresh.contains(fresh[i]));
    }
    lemma_looked_up_all_fresh(fresh, ids, now, max_age);
    lemma_all_fresh(looked_up(fresh, ids), now, max_age);
}

proof fn lemma_looked_up_all_fresh(
    order: Seq<(MessageId, Instant)>,
    ids: Seq<MessageId>,
    now: Instant,
    max_age: Duration,
)
    requires
        distinct(order),
        forall|i: int| 0 <= i < order.len() ==> elapsed_between(now, (#[trigger] order[i]).1) < max_age.nanos,
    ensures
        forall|i: int|
            0 <= i < looked_up(order, ids).len() ==> elapsed_between(now, (#[trigger] looked_up(order, ids)[i]).1)
                < max_age.nanos,
    decreases ids.len(),
{
    if ids.len() > 0 {
        lemma_looked_up_all_fresh(order, ids.drop_last(), now, max_age);
        lemma_lookups_keep(order, ids.drop_last());
        let before = looked_up(order, ids.drop_last());
        let id = ids.last();
        if holds(before, id) {
            let k = choose|k: int| 0 <= k < before.len() && (#[trigger] before[k]).0 == id;
            crate::recency::lemma_without_at(before, k);
            let after = looked_up(order, ids);
            assert forall|i: int| 0 <= i < after.len() implies elapsed_between(now, (#[trigger] after[i]).1)
                < max_age.nanos by {
                if i == 0 {
                    assert(after[0].1 == before[k].1);
                } else {
                    let rest = before.remove(k);
                    assert(after[i] == rest[i - 1]);
                    let m = if i - 1 < k { i - 1 } else { i };
                    assert(rest[i - 1] == before[m]);
                }
            }
        }
    }
}

proof fn lemma_all_fresh(order: Seq<(MessageId, Instant)>, now: Instant, max_age: Duration)
    requires
        forall|i: int| 0 <= i < order.len() ==> elapsed_between(now, (#[trigger] order[i]).1) < max_age.nanos,
    ensures
        fresh_at(order, now, max_age) == order,
    decreases order.len(),
{
    reveal(Seq::filter);
    if order.len() > 0 {
        let rest = order.drop_last();
        assert forall|i: int| 0 <= i < rest.len() implies elapsed_between(now, (#[trigger] rest[i]).1)
            < max_age.nanos by {
            assert(rest[i] == order[i]);
        }
        lemma_all_fresh(rest, now, max_age);
        assert(elapsed_between(now, order[order.len() - 1].1) < max_age.nanos);
        assert(order =~= rest.push(order.last()));
    } else {
        assert(fresh_at(order, now, max_age) =~= order);
    }
}

/// No message is asked for twice: what an announcement asks for is neither cached nor asked for
/// already, and each message of it is asked for once.
pub proof fn wanted_messages_are_new(
    announced: Seq<MessageId>,
    cached: Seq<(MessageId, Instant)>,
    outstanding: Map<MessageId, (PeerId, Instant)>,
)
    ensures
        newly_wanted(announced, cached, outstanding).no_duplicates(),
        forall|id: MessageId| #[trigger]
            newly_wanted(announced, cached, outstanding).contains(id) <==> announced.contains(id) && !holds(cached, id)
                && !outstanding.dom().contains(id),
    decreases announced.len(),
{
    let wanted = newly_wanted(announced, cached, outstanding);
    if announced.len() > 0 {
        let rest = announced.drop_last();
        let id = announced.last();
        wanted_messages_are_new(rest, cached, outstanding);
        let before = newly_wanted(rest, cached, outstanding);
        assert(announced =~= rest.insert(rest.len() as int, id));
        crate::order::lemma_insert_members(rest, rest.len() as int, id);
        assert forall|x: MessageId| #[trigger] announced.contains(x) == (rest.contains(x) || x == id) by {
            assert(announced.to_set().contains(x) == rest.to_set().insert(id).contains(x));
        }
        if wanted != before {
            assert(wanted =~= before.insert(before.len() as int, id));
            crate::order::lemma_insert_members(before, before.len() as int, id);
            assert forall|x: MessageId| #[trigger] wanted.contains(x) == (before.contains(x) || x == id) by {
                assert(wanted.to_set().contains(x) == before.to_set().insert(id).contains(x));
            }
        }
    } else {
        assert forall|id: MessageId| #[trigger] wanted.contains(id) <==> announced.contains(id) && !holds(cached, id)
            && !outstanding.dom().contains(id) by {
        }
    }
}

/// An announcement that comes a second time asks for nothing.
pub proof fn repeated_announcement_asks_for_nothing(
    announced: Seq<MessageId>,
    cached: Seq<(MessageId, Instant)>,
    outstanding: Map<MessageId, (PeerId, Instant)>,
    peer: PeerId,
    now: Instant,
)
    ensures
        newly_wanted(
            announced,
            cached,
            also_asked(outstanding, newly_wanted(announced, cached, outstanding), peer, now),
        ).len() == 0,
{
    let first = newly_wanted(announced, cached, outstanding);
    let asked = also_asked(outstanding, first, peer, now);
    wanted_messages_are_new(announced, cached, outstanding);
    wanted_messages_are_new(announced, cached, asked);
    let second = newly_wanted(announced, cached, asked);
    if second.len() > 0 {
        assert(second.contains(second[0]));
        assert(first.contains(second[0]));
    }
}

/// However many peers ask for messages, the mesh has no more eager peers than the most.
pub proof fn requests_do_not_exceed_the_degree(
    before: TopicState,
    after: TopicState,
    from: PeerId,
    ids: Seq<MessageId>,
    now: Instant,
    scores: MeshScores,
    pruned: usize,
    grafted: usize,
)
    requires
        before.roles_disjoint(),
        after.request_answered(&before, from, ids, now, scores, pruned, grafted),
    ensures
        after.eager_peers@.len() <= after.max_eager_degree,
        after.max_eager_degree == before.max_eager_degree,
        after.roles_disjoint(),
{
    let served = choose|served: TopicState|
        {
            &&& served.wf()
            &&& #[trigger] served.request_served(&before, from, ids, now)
            &&& after.maintained_from(&served, now, scores, pruned, grafted)
        };
    maintenance_bounds_the_degree(served, after, now, scores, pruned, grafted);
    maintenance_keeps_the_peers(served, after, now, scores, pruned, grafted);
}

/// A reconciliation closes the gap: whatever a peer has listed and this node lacks is asked for, and
/// the peer's answer to that request holds every message of it that it still has.
pub proof fn reconciliation_closes_the_gap(
    theirs: Seq<(MessageId, Instant)>,
    ours: Seq<(MessageId, Instant)>,
    needed: Seq<MessageId>,
    now: Instant,
    max_age: Duration,
    id: MessageId,
)
    requires
        forall|k: MessageId| #[trigger] needed.contains(k) <==> holds(theirs, k) && !holds(ours, k),
        holds(fresh_at(theirs, now, max_age), id),
        holds(theirs, id),
        !holds(ours, id),
    ensures
        needed.filter(is_cached(fresh_at(theirs, now, max_age))).contains(id),
{
    let pred = is_cached(fresh_at(theirs, now, max_age));
    assert(needed.contains(id));
    let i = needed.index_of(id);
    needed.lemma_filter_contains(pred, i);
}

/// The answer to a request holds every message of it that can be had, once for every time that it
/// was asked for and in the order of the request, with its payload and its header; and nothing else.
pub proof fn answers_hold_all_that_can_be_had(
    cache: BoundedMessageCache,
    answer: Seq<CachedMessage>,
    ids: Seq<MessageId>,
    now: Instant,
) -> (at: Seq<int>)
    requires
        cache.wf(),
        copies_of(
            answer,
            ids.filter(is_cached(fresh_at(cache.order(), now, cache.max_age()))),
            cache.messages(),
        ),
    ensures
        at.len() == answer.len(),
        forall|j: int| 0 <= j < at.len() ==> 0 <= #[trigger] at[j] < ids.len() && can_be_had(cache, ids[at[j]], now),
        forall|j: int|
            0 <= j < at.len() ==> answer[j].payload@ == cache.messages()[ids[#[trigger] at[j]]].payload@
                && answer[j].header == cache.messages()[ids[at[j]]].header,
        forall|i: int, j: int| 0 <= i < j < at.len() ==> #[trigger] at[i] < #[trigger] at[j],
        forall|i: int| 0 <= i < ids.len() && can_be_had(cache, #[trigger] ids[i], now) ==> at.contains(i),
{
    let fresh = fresh_at(cache.order(), now, cache.max_age());
    crate::cache::fresh_entries_can_be_had(cache, now);
    let pred = is_cached(fresh);
    let at = crate::order::lemma_filter_positions(ids, pred);
    assert forall|i: int| 0 <= i < ids.len() && can_be_had(cache, #[trigger] ids[i], now) implies at.contains(i) by {
        assert(holds(fresh, ids[i]));
        assert(pred(ids[i]));
    }
    assert forall|j: int| 0 <= j < at.len() implies 0 <= #[trigger] at[j] < ids.len() && can_be_had(
        cache,
        ids[at[j]],
        now,
    ) by {
        assert(pred(ids[at[j]]));
        assert(holds(fresh, ids[at[j]]));
    }
    at
}

/// A message that was received is in the answer to every request for it until it reaches the
/// greatest age.
pub proof fn received_messages_are_served(
    before: TopicState,
    after: TopicState,
    from: PeerId,
    header: MessageHeader,
    payload: Seq<u8>,
    key: [u8; 32],
    now: Instant,
    outcome: EagerOutcome,
    answer: Seq<CachedMessage>,
    ids: Seq<MessageId>,
    later: Instant,
)
    requires
        before.wf(),
        after.wf(),
        after.eager_received(&before, from, header, Some(payload), key, now, outcome),
        outcome is Accepted || outcome is Replay,
        payload.len() + crate::config::MESSAGE_HEADER_OVERHEAD_BYTES + crate::config::MESSAGE_CRYPTO_OVERHEAD_BYTES
            <= before.message_cache.max_bytes(),
        now.nanos <= later.nanos && later.nanos - now.nanos < before.message_cache.max_age().nanos,
        ids.contains(header.msg_id),
        copies_of(
            answer,
            ids.filter(
                is_cached(fresh_at(after.message_cache.order(), later, after.message_cache.max_age())),
            ),
            after.message_cache.messages(),
        ),
    ensures
        exists|j: int|
            0 <= j < answer.len() && (#[trigger] answer[j]).payload@ == payload && answer[j].header == header,
{
    crate::inbound::received_message_can_be_had_again(
        before,
        after,
        from,
        header,
        payload,
        key,
        now,
        outcome,
        later,
    );
    let at = answers_hold_all_that_can_be_had(after.message_cache, answer, ids, later);
    let i = ids.index_of(header.msg_id);
    assert(can_be_had(after.message_cache, ids[i], later));
    let j = at.index_of(i);
    assert(at[j] == i);
    assert(answer[j].payload@ == payload);
}

/// A message is a copy of one that can be had and that a peer did not list.
pub open spec fn is_unlisted_copy(
    cache: BoundedMessageCache,
    theirs: Seq<MessageId>,
    message: CachedMessage,
    now: Instant,
) -> bool {
    exists|k: MessageId|
        {
            &&& #[trigger] can_be_had(cache, k, now)
            &&& !theirs.contains(k)
            &&& message.payload@ == cache.messages()[k].payload@
            &&& message.header == cache.messages()[k].header
        }
}

/// What a reconciliation gives: every message that can be had and that the peer did not list, with
/// its payload and its header, and no message that the peer listed.
pub proof fn digests_are_answered_in_full(
    cache: BoundedMessageCache,
    answer: Seq<CachedMessage>,
    theirs: Seq<MessageId>,
    lacking: Seq<MessageId>,
    now: Instant,
    id: MessageId,
)
    requires
        cache.wf(),
        lacking.no_duplicates(),
        forall|k: MessageId| #[trigger]
            lacking.contains(k) <==> holds(cache.order(), k) && !theirs.contains(k),
        copies_of(
            answer,
            lacking.filter(is_cached(fresh_at(cache.order(), now, cache.max_age()))),
            cache.messages(),
        ),
    ensures
        can_be_had(cache, id, now) && !theirs.contains(id) ==> exists|j: int|
            0 <= j < answer.len() && (#[trigger] answer[j]).payload@ == cache.messages()[id].payload@
                && answer[j].header == cache.messages()[id].header,
        forall|j: int| 0 <= j < answer.len() ==> is_unlisted_copy(cache, theirs, #[trigger] answer[j], now),
{
    let at = answers_hold_all_that_can_be_had(cache, answer, lacking, now);
    if can_be_had(cache, id, now) && !theirs.contains(id) {
        crate::cache::fresh_entries_can_be_had(cache, now);
        assert(holds(cache.order(), id));
        assert(lacking.contains(id));
        let i = lacking.index_of(id);
        assert(can_be_had(cache, lacking[i], now));
        let j = at.index_of(i);
        assert(at[j] == i);
        assert(answer[j].header == cache.messages()[id].header);
    }
    assert forall|j: int| 0 <= j < answer.len() implies is_unlisted_copy(
        cache,
        theirs,
        #[trigger] answer[j],
        now,
    ) by {
        let k = lacking[at[j]];
        assert(lacking.contains(k));
        assert(can_be_had(cache, k, now));
    }
}

/// Looking messages up keeps all that can be had, with the same content, and nothing that cannot;
/// and what was looked up is not forgotten before what was not.
pub proof fn lookups_keep_what_can_be_had(
    before: TopicState,
    after: TopicState,
    ids: Seq<MessageId>,
    now: Instant,
    id: MessageId,
)
    requires
        before.wf(),
        after.wf(),
        ids.len() > 0,
        after.cache_after_lookups(&before, ids, now),
    ensures
        after.message_cache.messages().dom().contains(id) <==> can_be_had(before.message_cache, id, now),
        can_be_had(before.message_cache, id, now) ==> after.message_cache.messages()[id]
            == before.message_cache.messages()[id],
        can_be_had(before.message_cache, ids.last(), now) ==> after.message_cache.order()[0].0 == ids.last(),
{
    crate::cache::fresh_entries_can_be_had(before.message_cache, now);
    let fresh = fresh_at(before.message_cache.order(), now, before.message_cache.max_age());
    lemma_lookups_keep(fresh, ids.drop_last());
    if can_be_had(before.message_cache, ids.last(), now) {
        assert(holds(fresh, ids.last()));
        assert(holds(looked_up(fresh, ids.drop_last()), ids.last()));
    }
}

/// What an announcement leaves behind: every message that is now asked for is noted with its peer
/// and the time, what was asked for before stays as it was, and nothing else is noted.
pub proof fn requests_are_noted(
    outstanding: Map<MessageId, (PeerId, Instant)>,
    wanted: Seq<MessageId>,
    peer: PeerId,
    now: Instant,
    id: MessageId,
)
    ensures
        ({
            let after = also_asked(outstanding, wanted, peer, now);
            &&& after.dom().contains(id) <==> outstanding.dom().contains(id) || wanted.contains(id)
            &&& outstanding.dom().contains(id) ==> after[id] == outstanding[id]
            &&& wanted.contains(id) && !outstanding.dom().contains(id) ==> after[id].0 == peer && after[id].1 == now
        }),
{
}

/// Each request counts once for the peer that it goes to, and for nothing else.
pub proof fn requests_are_counted(
    scores: Map<PeerId, PeerScore>,
    peer: PeerId,
    n: nat,
    now: Instant,
    other: PeerId,
)
    requires
        scores.dom().contains(peer) ==> scores[peer].iwant_requests + n <= u64::MAX,
        n <= u64::MAX,
    ensures
        ({
            let after = scores_after_requests(scores, peer, n, now);
            let before = if scores.dom().contains(peer) { scores[peer].iwant_requests } else { 0 };
            &&& n > 0 ==> after.dom().contains(peer) && after[peer].iwant_requests == before + n
            &&& n > 0 && scores.dom().contains(peer) ==> after[peer].messages_delivered
                == scores[peer].messages_delivered && after[peer].iwant_responses == scores[peer].iwant_responses
                && after[peer].last_seen == scores[peer].last_seen
            &&& n == 0 ==> after == scores
            &&& other != peer ==> after.dom().contains(other) == scores.dom().contains(other) && after[other]
                == scores[other]
        }),
{
    lemma_requested_times(score_or_new(scores, peer, now), n);
}

proof fn lemma_requested_times(score: PeerScore, n: nat)
    requires
        score.iwant_requests + n <= u64::MAX,
    ensures
        requested_times(score, n).iwant_requests == score.iwant_requests + n,
        requested_times(score, n).messages_delivered == score.messages_delivered,
        requested_times(score, n).iwant_responses == score.iwant_responses,
        requested_times(score, n).last_seen == score.last_seen,
    decreases n,
{
    if n > 0 {
        lemma_requested_times(score, (n - 1) as nat);
    }
}

/// Of the messages that a peer says are lacking exactly those are asked for that are not cached, in
/// their order.
pub proof fn missing_messages_are_asked_for(
    cached: Seq<(MessageId, Instant)>,
    ids: Seq<MessageId>,
) -> (at: Seq<int>)
    ensures
        picks(at, ids.filter(is_missing(cached)), ids),
        forall|i: int|
            0 <= i < ids.len() ==> (#[trigger] at.contains(i) <==> !(exists|j: int|
                0 <= j < cached.len() && (#[trigger] cached[j]).0 == ids[i])),
{
    let pred = is_missing(cached);
    let at = crate::order::lemma_filter_positions(ids, pred);
    assert forall|i: int| 0 <= i < ids.len() implies (#[trigger] at.contains(i) <==> !(exists|j: int|
        0 <= j < cached.len() && (#[trigger] cached[j]).0 == ids[i])) by {
        if at.contains(i) {
            let j = at.index_of(i);
            assert(pred(ids[at[j]]));
        }
        assert(pred(ids[i]) == !holds(cached, ids[i]));
    }
    at
}

/// Whoever is served has a role in the topic from then on, and nobody else gets or loses one.
pub proof fn served_peers_have_a_role(
    before: TopicState,
    after: TopicState,
    from: PeerId,
    ids: Seq<MessageId>,
    now: Instant,
    scores: MeshScores,
    pruned: usize,
    grafted: usize,
    id: MessageId,
    other: PeerId,
)
    requires
        before.wf(),
        after.request_answered(&before, from, ids, now, scores, pruned, grafted),
        ids.contains(id),
        can_be_had(before.message_cache, id, now),
    ensures
        after.eager_peers@.contains(from) || after.lazy_peers@.contains(from),
        other != from ==> ((after.eager_peers@.contains(other) || after.lazy_peers@.contains(other))
            <==> (before.eager_peers@.contains(other) || before.lazy_peers@.contains(other))),
        after.last_activity == now,
        after.outstanding_iwants == before.outstanding_iwants,
        after.pending_ihave == before.pending_ihave,
{
    let served = choose|served: TopicState|
        {
            &&& served.wf()
            &&& #[trigger] served.request_served(&before, from, ids, now)
            &&& after.maintained_from(&served, now, scores, pruned, grafted)
        };
    maintenance_keeps_the_peers(served, after, now, scores, pruned, grafted);
    crate::cache::fresh_entries_can_be_had(before.message_cache, now);
    let fresh = fresh_at(before.message_cache.order(), now, before.message_cache.max_age());
    let pred = is_cached(fresh);
    let i = ids.index_of(id);
    assert(holds(fresh, id));
    ids.lemma_filter_contains(pred, i);
    assert(ids.filter(pred).len() > 0);
    assert(after.eager_peers@.union(after.lazy_peers@).contains(from) == served.eager_peers@.union(
        served.lazy_peers@,
    ).contains(from));
    assert(after.eager_peers@.union(after.lazy_peers@).contains(other) == served.eager_peers@.union(
        served.lazy_peers@,
    ).contains(other));
}

/// A lookup moves messages but loses none that can be had: what it no longer holds had grown old,
/// and is counted so.
pub proof fn lookups_count_what_has_grown_old(before: TopicState, after: TopicState, ids: Seq<MessageId>, now: Instant)
    requires
        before.wf(),
        ids.len() > 0,
        after.cache_after_lookups(&before, ids, now),
        after.message_cache.evicted_by_age() < u64::MAX,
    ensures
        before.message_cache.order().len() + before.message_cache.evicted_by_age()
            == after.message_cache.order().len() + after.message_cache.evicted_by_age(),
        after.message_cache.evicted_by_bytes() == before.message_cache.evicted_by_bytes(),
        after.message_cache.evicted_by_count() == before.message_cache.evicted_by_count(),
{
    let cache = before.message_cache;
    cache.order().lemma_filter_len(|e: (MessageId, Instant)| elapsed_between(now, e.1) < cache.max_age().nanos);
    crate::cache::fresh_entries_can_be_had(cache, now);
    lemma_lookups_keep_count(fresh_at(cache.order(), now, cache.max_age()), ids);
}

proof fn lemma_lookups_keep_count(order: Seq<(MessageId, Instant)>, ids: Seq<MessageId>)
    requires
        distinct(order),
    ensures
        looked_up(order, ids).len() == order.len(),
        distinct(looked_up(order, ids)),
    decreases ids.len(),
{
    if ids.len() > 0 {
        let before = looked_up(order, ids.drop_last());
        let id = ids.last();
        lemma_lookups_keep_count(order, ids.drop_last());
        if holds(before, id) {
            let i = choose|i: int| 0 <= i < before.len() && (#[trigger] before[i]).0 == id;
            crate::recency::lemma_without_at(before, i);
            let after = in_front(without(before, id), id, value_of(before, id));
            assert forall|a: int, b: int| 0 <= a < b < after.len() implies (#[trigger] after[a]).0 != (#[trigger] after[b]).0 by {
                let x = if b - 1 < i { b - 1 } else { b };
                assert(after[b] == before.remove(i)[b - 1] && before.remove(i)[b - 1] == before[x]);
                if a == 0 {
                    assert(x != i);
                    assert(before[x].0 != before[i].0);
                } else {
                    let y = if a - 1 < i { a - 1 } else { a };
                    assert(after[a] == before.remove(i)[a - 1] && before.remove(i)[a - 1] == before[y]);
                    assert(before[y].0 != before[x].0);
                }
            }
        }
    }
}

} // verus!
