//! The memory of payloads that have been seen, whatever envelope they came in.

use lru::LruCache;
use vstd::prelude::*;

use crate::config::{secs, REPLAY_CACHE_MAX_ENTRIES, REPLAY_CACHE_TTL_SECS};
use crate::recency::{
    capacity, distinct, holds, in_front, lru_entries, lru_get, lru_len, lru_new, lru_pop, lru_push, recency, value_of,
    without,
};
use crate::time::{elapsed_between, Duration, Instant, NANOS_PER_SEC};

verus! {

/// The hashes of the latest payloads, each with the time at which it was first seen.
pub struct ReplayCache {
    seen: LruCache<[u8; 32], Instant>,
    ttl: Duration,
}

/// Whether a payload was seen less than `ttl` ago.
pub open spec fn is_replay(seen: Seq<([u8; 32], Instant)>, key: [u8; 32], now: Instant, ttl: Duration) -> bool {
    holds(seen, key) && elapsed_between(now, value_of(seen, key)) < ttl.nanos
}

/// What is remembered after a payload came in: a replay becomes the most recent entry and keeps
/// its time; any other payload enters with the time of now, in place of the least recent entry
/// where there is no room.
pub open spec fn after_payload(
    seen: Seq<([u8; 32], Instant)>,
    key: [u8; 32],
    now: Instant,
    ttl: Duration,
) -> Seq<([u8; 32], Instant)> {
    if is_replay(seen, key, now, ttl) {
        in_front(without(seen, key), key, value_of(seen, key))
    } else if holds(seen, key) || seen.len() < REPLAY_CACHE_MAX_ENTRIES {
        in_front(without(seen, key), key, now)
    } else {
        in_front(seen.drop_last(), key, now)
    }
}

/// The entries that are not older than `ttl`.
pub open spec fn remembered_at(seen: Seq<([u8; 32], Instant)>, now: Instant, ttl: Duration) -> Seq<
    ([u8; 32], Instant),
> {
    seen.filter(|e: ([u8; 32], Instant)| elapsed_between(now, e.1) <= ttl.nanos)
}

impl ReplayCache {
    /// The hashes with their times, most recently used first.
    pub closed spec fn seen(&self) -> Seq<([u8; 32], Instant)> {
        recency(self.seen)
    }

    /// How long a payload counts as seen.
    pub closed spec fn ttl(&self) -> Duration {
        self.ttl
    }

    /// No hash is remembered twice, no more than there is room for, and each counts as seen for
    /// the usual time.
    pub closed spec fn wf(&self) -> bool {
        &&& self.ttl == secs(REPLAY_CACHE_TTL_SECS)
        &&& distinct(self.seen())
        &&& self.seen().len() <= REPLAY_CACHE_MAX_ENTRIES
        &&& capacity(self.seen) == REPLAY_CACHE_MAX_ENTRIES
    }

    pub fn new() -> (r: Self)
        ensures
            r.wf(),
            r.seen() == Seq::<([u8; 32], Instant)>::empty(),
            r.ttl() == secs(REPLAY_CACHE_TTL_SECS),
    {
        ReplayCache { seen: lru_new(REPLAY_CACHE_MAX_ENTRIES), ttl: Duration::from_secs(REPLAY_CACHE_TTL_SECS) }
    }

    pub fn len(&self) -> (r: usize)
        requires
            self.wf(),
        ensures
            r == self.seen().len(),
            r <= REPLAY_CACHE_MAX_ENTRIES,
    {
        lru_len(&self.seen)
    }

    /// A payload counts as seen for the same time in every cache, and no hash is there twice.
    pub proof fn lemma_distinct(&self)
        requires
            self.wf(),
        ensures
            self.ttl() == secs(REPLAY_CACHE_TTL_SECS),
            distinct(self.seen()),
            self.seen().len() <= REPLAY_CACHE_MAX_ENTRIES,
    {
    }

    /// Notes a payload by its hash; says whether it is a replay.
    pub fn check_at(&mut self, key: [u8; 32], now: Instant) -> (r: bool)
        requires
            old(self).wf(),
        ensures
            final(self).wf(),
            final(self).ttl() == old(self).ttl(),
            r == is_replay(old(self).seen(), key, now, old(self).ttl()),
            final(self).seen() == after_payload(old(self).seen(), key, now, old(self).ttl()),
    {
        let ghost before = self.seen();
        let found = lru_get(&mut self.seen, &key);
        proof {
            if holds(before, key) {
                lemma_moved(before, key, value_of(before, key));
            } else {
                crate::recency::lemma_without_absent(before, key);
            }
        }
        if let Some(first_seen) = found {
            if now.saturating_duration_since(first_seen).nanos < self.ttl.nanos {
                return true;
            }
        }
        let ghost middle = self.seen();
        lru_push(&mut self.seen, key, now);
        proof {
            if holds(before, key) {
                lemma_moved_again(before, key, value_of(before, key));
                lemma_moved(before, key, now);
            } else {
                assert(middle == before);
                if before.len() < REPLAY_CACHE_MAX_ENTRIES {
                    crate::cache::lemma_front_holds(before, key, now);
                } else {
                    let rest = before.drop_last();
                    crate::cache::lemma_take_holds(before, before.len() - 1);
                    assert(before.take(before.len() - 1) =~= rest);
                    assert(distinct(rest));
                    crate::cache::lemma_front_holds(rest, key, now);
                }
            }
        }
        false
    }

    /// Forgets the payloads that are older than they count.
    pub fn clean_at(&mut self, now: Instant)
        requires
            old(self).wf(),
        ensures
            final(self).wf(),
            final(self).ttl() == old(self).ttl(),
            final(self).seen() == remembered_at(old(self).seen(), now, old(self).ttl()),
    {
        let entries: Vec<([u8; 32], Instant)> = lru_entries(&self.seen);
        let ghost all = entries@;
        let ghost ttl = self.ttl;
        let mut i: usize = 0;
        proof {
            lemma_remembered_none(all, now, ttl);
        }
        while i < entries.len()
            invariant
                i <= entries@.len(),
                entries@ == all,
                distinct(all),
                self.wf(),
                ttl == old(self).ttl(),
                self.ttl == ttl,
                self.seen() == remembered_at(all.take(i as int), now, ttl) + all.skip(i as int),
            decreases entries@.len() - i,
        {
            let entry = entries[i];
            let ghost before = self.seen();
            proof {
                lemma_remembered_step(all, i as int, now, ttl);
            }
            if now.saturating_duration_since(entry.1).nanos > self.ttl.nanos {
                lru_pop(&mut self.seen, &entry.0);
                proof {
                    let at = remembered_at(all.take(i as int), now, ttl).len() as int;
                    crate::recency::lemma_without_at(before, at);
                }
            }
            i = i + 1;
        }
        assert(all.take(all.len() as int) =~= all);
        assert(self.seen() =~= remembered_at(all, now, ttl));
    }
}

/// A payload that has been noted is a replay until its time is over.
pub proof fn noted_payload_is_a_replay(
    seen: Seq<([u8; 32], Instant)>,
    key: [u8; 32],
    now: Instant,
    later: Instant,
    ttl: Duration,
)
    requires
        distinct(seen),
        !is_replay(seen, key, now, ttl),
        elapsed_between(later, now) < ttl.nanos,
    ensures
        is_replay(after_payload(seen, key, now, ttl), key, later, ttl),
{
    let after = after_payload(seen, key, now, ttl);
    assert(after[0] == (key, now));
    if holds(seen, key) {
        lemma_moved(seen, key, now);
    } else if seen.len() < REPLAY_CACHE_MAX_ENTRIES {
        crate::recency::lemma_without_absent(seen, key);
        crate::cache::lemma_front_holds(seen, key, now);
    } else {
        let rest = seen.drop_last();
        crate::cache::lemma_take_holds(seen, seen.len() - 1);
        assert(seen.take(seen.len() - 1) =~= rest);
        crate::cache::lemma_front_holds(rest, key, now);
    }
    crate::recency::lemma_without_at(after, 0);
}

/// A payload that is not remembered is new.
pub proof fn other_payloads_are_new(seen: Seq<([u8; 32], Instant)>, key: [u8; 32], now: Instant, ttl: Duration)
    requires
        !holds(seen, key),
    ensures
        !is_replay(seen, key, now, ttl),
{
}

proof fn lemma_moved(seen: Seq<([u8; 32], Instant)>, key: [u8; 32], value: Instant)
    requires
        distinct(seen),
        holds(seen, key),
    ensures
        distinct(in_front(without(seen, key), key, value)),
        in_front(without(seen, key), key, value).len() == seen.len(),
{
    let i = choose|i: int| 0 <= i < seen.len() && (#[trigger] seen[i]).0 == key;
    crate::recency::lemma_without_at(seen, i);
    crate::cache::lemma_without_holds(seen, key);
    crate::cache::lemma_front_holds(without(seen, key), key, value);
}

proof fn lemma_moved_again(seen: Seq<([u8; 32], Instant)>, key: [u8; 32], value: Instant)
    requires
        distinct(seen),
        holds(seen, key),
    ensures
        holds(in_front(without(seen, key), key, value), key),
        without(in_front(without(seen, key), key, value), key) == without(seen, key),
{
    lemma_moved(seen, key, value);
    let moved = in_front(without(seen, key), key, value);
    assert(moved[0].0 == key);
    crate::recency::lemma_without_at(moved, 0);
    assert(moved.remove(0) =~= without(seen, key));
}

proof fn lemma_remembered_none(all: Seq<([u8; 32], Instant)>, now: Instant, ttl: Duration)
    ensures
        all == remembered_at(all.take(0), now, ttl) + all.skip(0),
{
    reveal(Seq::filter);
    assert(all =~= remembered_at(all.take(0), now, ttl) + all.skip(0));
}

proof fn lemma_remembered_step(all: Seq<([u8; 32], Instant)>, i: int, now: Instant, ttl: Duration)
    requires
        0 <= i < all.len(),
    ensures
        ({
            let kept = remembered_at(all.take(i), now, ttl);
            let next = remembered_at(all.take(i + 1), now, ttl);
            let mixed = kept + all.skip(i);
            &&& kept.len() < mixed.len()
            &&& mixed[kept.len() as int] == all[i]
            &&& elapsed_between(now, all[i].1) <= ttl.nanos ==> mixed == next + all.skip(i + 1)
            &&& elapsed_between(now, all[i].1) > ttl.nanos ==> mixed.remove(kept.len() as int) == next + all.skip(
                i + 1,
            )
        }),
{
    reveal(Seq::filter);
    assert(all.take(i + 1).drop_last() =~= all.take(i));
    assert(all.take(i + 1).last() == all[i]);
    let kept = remembered_at(all.take(i), now, ttl);
    assert((kept + all.skip(i)).remove(kept.len() as int) =~= kept + all.skip(i + 1));
    assert(kept + all.skip(i) =~= kept.push(all[i]) + all.skip(i + 1));
}

/// A payload with this hash was noted less than the usual time ago.
pub open spec fn noted_lately(seen: Seq<([u8; 32], Instant)>, key: [u8; 32], now: Instant) -> bool {
    exists|i: int|
        {
            &&& 0 <= i < seen.len()
            &&& (#[trigger] seen[i]).0 == key
            &&& now.nanos < seen[i].1.nanos + REPLAY_CACHE_TTL_SECS * NANOS_PER_SEC
        }
}

/// A payload is a replay exactly where it was noted less than the usual time ago.
pub proof fn replays_were_noted_lately(cache: ReplayCache, key: [u8; 32], now: Instant)
    requires
        cache.wf(),
    ensures
        is_replay(cache.seen(), key, now, cache.ttl()) <==> noted_lately(cache.seen(), key, now),
{
    let seen = cache.seen();
    cache.lemma_distinct();
    if holds(seen, key) {
        let i = choose|i: int| 0 <= i < seen.len() && (#[trigger] seen[i]).0 == key;
        crate::recency::lemma_without_at(seen, i);
    }
    if noted_lately(seen, key, now) {
        let i = choose|i: int|
            {
                &&& 0 <= i < seen.len()
                &&& (#[trigger] seen[i]).0 == key
                &&& now.nanos < seen[i].1.nanos + REPLAY_CACHE_TTL_SECS * NANOS_PER_SEC
            };
        crate::recency::lemma_without_at(seen, i);
    }
}

/// What is remembered once a payload came in: it is the most recent, with the time at which it was
/// first seen; and every other payload is remembered as before, unless the memory was full.
pub proof fn payloads_are_remembered(cache: ReplayCache, key: [u8; 32], now: Instant)
    requires
        cache.wf(),
    ensures
        ({
            let seen = cache.seen();
            let after = after_payload(seen, key, now, cache.ttl());
            &&& after.len() > 0 && after[0].0 == key
            &&& !noted_lately(seen, key, now) ==> after[0].1.nanos == now.nanos
            &&& noted_lately(seen, key, now) ==> seen.contains(after[0])
            &&& forall|e: ([u8; 32], Instant)| e.0 != key && #[trigger] after.contains(e) ==> seen.contains(e)
            &&& forall|e: ([u8; 32], Instant)|
                e.0 != key && #[trigger] seen.contains(e) && (seen.len() < REPLAY_CACHE_MAX_ENTRIES || holds(seen, key)
                    || e != seen.last()) ==> after.contains(e)
        }),
{
    let seen = cache.seen();
    let ttl = cache.ttl();
    let after = after_payload(seen, key, now, ttl);
    cache.lemma_distinct();
    replays_were_noted_lately(cache, key, now);
    crate::recency::lemma_filter_members(seen, crate::recency::other_key(key));
    let rest = without(seen, key);
    if holds(seen, key) {
        let i = choose|i: int| 0 <= i < seen.len() && (#[trigger] seen[i]).0 == key;
        crate::recency::lemma_without_at(seen, i);
        assert(seen.contains(seen[i]));
        assert(seen[i] == (key, value_of(seen, key)));
    }
    let tail = if is_replay(seen, key, now, ttl) || holds(seen, key) || seen.len() < REPLAY_CACHE_MAX_ENTRIES {
        rest
    } else {
        seen.drop_last()
    };
    assert(after == in_front(tail, key, after[0].1));
    assert forall|e: ([u8; 32], Instant)| #[trigger] after.contains(e) implies e == after[0] || tail.contains(e) by {
        let j = after.index_of(e);
        if j > 0 {
            assert(tail[j - 1] == e);
        }
    }
    assert forall|e: ([u8; 32], Instant)| #[trigger] tail.contains(e) implies after.contains(e) by {
        let j = tail.index_of(e);
        assert(after[j + 1] == e);
    }
    if seen.len() > 0 {
        assert forall|e: ([u8; 32], Instant)| #[trigger] seen.drop_last().contains(e) implies seen.contains(e) by {
            let j = seen.drop_last().index_of(e);
            assert(seen[j] == e);
        }
        assert forall|e: ([u8; 32], Instant)| #[trigger] seen.contains(e) && e != seen.last() implies
            seen.drop_last().contains(e) by {
            let j = seen.index_of(e);
            assert(seen.drop_last()[j] == e);
        }
    }
    assert forall|e: ([u8; 32], Instant)| e.0 != key && #[trigger] after.contains(e) implies seen.contains(e) by {
        assert(tail.contains(e));
    }
    assert forall|e: ([u8; 32], Instant)|
        e.0 != key && #[trigger] seen.contains(e) && (seen.len() < REPLAY_CACHE_MAX_ENTRIES || holds(seen, key) || e
            != seen.last()) implies after.contains(e) by {
        assert(rest.contains(e));
        assert(tail.contains(e));
    }
    if noted_lately(seen, key, now) {
        assert(after[0] == (key, value_of(seen, key)));
    } else {
        assert(after[0] == (key, now));
    }
}

} // verus!
