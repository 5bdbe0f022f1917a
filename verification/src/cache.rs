//! The cache of recent messages of one topic, bounded by age, bytes and count.

use lru::LruCache;
use vstd::prelude::*;

use crate::collections::IdMap;
use crate::config::{
    MAX_CACHE_AGE_SECS, MAX_CACHE_BYTES_PER_TOPIC, MAX_CACHE_SIZE, MESSAGE_CRYPTO_OVERHEAD_BYTES,
    MESSAGE_HEADER_OVERHEAD_BYTES,
};
use crate::ids::MessageId;
use crate::message::MessageHeader;
use crate::order::picks;
use crate::recency::{
    capacity, distinct, holds, in_front, lru_contains, lru_entries, lru_get, lru_len, lru_new, lru_pop, lru_pop_lru,
    lru_push, recency, value_of, without,
};
use crate::time::{elapsed_between, Duration, Instant, NANOS_PER_SEC};

verus! {

/// The bounds of a topic's message cache.
#[derive(Clone, Copy, Debug, PartialEq, Eq)]
pub struct PubSubCacheConfig {
    /// Most cached messages; at least one.
    pub max_messages_per_topic: usize,
    /// Most estimated wire bytes.
    pub max_bytes_per_topic: usize,
    /// Age at which a message is evicted.
    pub max_age: Duration,
}

impl PubSubCacheConfig {
    /// The cache needs room for one message, and a table that can be allocated.
    pub open spec fn valid(self) -> bool {
        0 < self.max_messages_per_topic <= usize::MAX / 128
    }
}

impl Default for PubSubCacheConfig {
    fn default() -> (r: Self)
        ensures
            r.max_messages_per_topic == MAX_CACHE_SIZE,
            r.max_bytes_per_topic == MAX_CACHE_BYTES_PER_TOPIC,
            r.max_age.nanos == MAX_CACHE_AGE_SECS * NANOS_PER_SEC,
            r.valid(),
    {
        PubSubCacheConfig {
            max_messages_per_topic: MAX_CACHE_SIZE,
            max_bytes_per_topic: MAX_CACHE_BYTES_PER_TOPIC,
            max_age: Duration::from_secs(MAX_CACHE_AGE_SECS),
        }
    }
}

/// A cached message.
#[derive(Clone, Debug)]
pub struct CachedMessage {
    pub payload: Vec<u8>,
    pub header: MessageHeader,
}

/// What a cache holds and what it has evicted, at one moment.
#[derive(Clone, Copy, Debug, PartialEq, Eq)]
pub struct CacheStatsSnapshot {
    pub msg_count: usize,
    pub total_bytes: usize,
    pub oldest_age_secs: u64,
    pub evicted_by_age: u64,
    pub evicted_by_bytes: u64,
    pub evicted_by_count: u64,
}

/// The estimated wire size of a message, held at the largest `usize`.
pub open spec fn message_bytes(message: CachedMessage) -> nat {
    let sum = message.payload@.len() + MESSAGE_HEADER_OVERHEAD_BYTES + MESSAGE_CRYPTO_OVERHEAD_BYTES;
    if sum <= usize::MAX { sum as nat } else { usize::MAX as nat }
}

/// A counter after `n` more events, held at the largest `u64`.
pub open spec fn counted(counter: u64, n: nat) -> nat {
    if counter + n <= u64::MAX { (counter + n) as nat } else { u64::MAX as nat }
}

/// The estimated wire size of all messages in `order`.
pub open spec fn bytes_held(order: Seq<(MessageId, Instant)>, messages: Map<MessageId, CachedMessage>) -> nat
    decreases order.len(),
{
    if order.len() == 0 {
        0
    } else {
        bytes_held(order.drop_last(), messages) + message_bytes(messages[order.last().0])
    }
}

/// The entries younger than `max_age`.
pub open spec fn fresh_at(order: Seq<(MessageId, Instant)>, now: Instant, max_age: Duration) -> Seq<
    (MessageId, Instant),
> {
    order.filter(|e: (MessageId, Instant)| elapsed_between(now, e.1) < max_age.nanos)
}

/// The entries that stay where the least recently used ones go until `incoming` more bytes fit.
pub open spec fn fit_bytes(
    order: Seq<(MessageId, Instant)>,
    messages: Map<MessageId, CachedMessage>,
    incoming: nat,
    max_bytes: nat,
) -> Seq<(MessageId, Instant)>
    decreases order.len(),
{
    if order.len() == 0 || bytes_held(order, messages) + incoming <= max_bytes {
        order
    } else {
        fit_bytes(order.drop_last(), messages, incoming, max_bytes)
    }
}

/// The entries that stay where the least recently used ones go until one more entry fits.
pub open spec fn fit_count(order: Seq<(MessageId, Instant)>, max_count: nat) -> Seq<(MessageId, Instant)> {
    if order.len() + 1 > max_count { order.take(max_count - 1) } else { order }
}

/// What is left of `order` for a message `id` of `bytes` bytes to be put in front of.
pub open spec fn room_for(
    order: Seq<(MessageId, Instant)>,
    messages: Map<MessageId, CachedMessage>,
    id: MessageId,
    bytes: nat,
    now: Instant,
    bounds: BoundedMessageCache,
) -> (Seq<(MessageId, Instant)>, Seq<(MessageId, Instant)>, Seq<(MessageId, Instant)>) {
    let aged = without(fresh_at(order, now, bounds.max_age()), id);
    let sized = fit_bytes(aged, messages, bytes, bounds.max_bytes());
    (aged, sized, fit_count(sized, bounds.max_count()))
}

/// The messages that some entry names.
pub open spec fn named_in(messages: Map<MessageId, CachedMessage>, order: Seq<(MessageId, Instant)>) -> Map<
    MessageId,
    CachedMessage,
> {
    Map::new(|k: MessageId| holds(order, k), |k: MessageId| messages[k])
}

/// The age in whole seconds of the oldest entry.
pub open spec fn oldest_secs(order: Seq<(MessageId, Instant)>, now: Instant) -> nat
    decreases order.len(),
{
    if order.len() == 0 {
        0
    } else {
        let rest = oldest_secs(order.drop_last(), now);
        let age = elapsed_between(now, order.last().1) / (NANOS_PER_SEC as nat);
        if age >= rest { age } else { rest }
    }
}

proof fn lemma_bytes_agree(
    order: Seq<(MessageId, Instant)>,
    a: Map<MessageId, CachedMessage>,
    b: Map<MessageId, CachedMessage>,
)
    requires
        forall|k: MessageId| #[trigger] holds(order, k) ==> a[k] == b[k],
    ensures
        bytes_held(order, a) == bytes_held(order, b),
    decreases order.len(),
{
    if order.len() > 0 {
        let rest = order.drop_last();
        assert forall|k: MessageId| #[trigger] holds(rest, k) implies a[k] == b[k] by {
            let i = choose|i: int| 0 <= i < rest.len() && (#[trigger] rest[i]).0 == k;
            assert(order[i].0 == k);
            assert(holds(order, k));
        }
        lemma_bytes_agree(rest, a, b);
        assert(order[order.len() - 1].0 == order.last().0);
        assert(holds(order, order.last().0));
    }
}

proof fn lemma_bytes_remove(order: Seq<(MessageId, Instant)>, messages: Map<MessageId, CachedMessage>, i: int)
    requires
        0 <= i < order.len(),
    ensures
        bytes_held(order, messages) == bytes_held(order.remove(i), messages) + message_bytes(messages[order[i].0]),
    decreases order.len(),
{
    if i < order.len() - 1 {
        let rest = order.drop_last();
        lemma_bytes_remove(rest, messages, i);
        assert(order.remove(i).drop_last() =~= rest.remove(i));
        assert(order.remove(i).last() == order.last());
    } else {
        assert(order.remove(i) =~= order.drop_last());
    }
}

proof fn lemma_bytes_front(
    order: Seq<(MessageId, Instant)>,
    messages: Map<MessageId, CachedMessage>,
    key: MessageId,
    at: Instant,
)
    ensures
        bytes_held(in_front(order, key, at), messages) == bytes_held(order, messages) + message_bytes(messages[key]),
{
    let all = in_front(order, key, at);
    lemma_bytes_remove(all, messages, 0);
    assert(all.remove(0) =~= order);
}

proof fn lemma_fit_bytes(
    order: Seq<(MessageId, Instant)>,
    messages: Map<MessageId, CachedMessage>,
    incoming: nat,
    max_bytes: nat,
)
    ensures
        ({
            let kept = fit_bytes(order, messages, incoming, max_bytes);
            &&& kept.len() <= order.len()
            &&& kept == order.take(kept.len() as int)
            &&& incoming <= max_bytes ==> bytes_held(kept, messages) + incoming <= max_bytes
        }),
    decreases order.len(),
{
    if order.len() == 0 || bytes_held(order, messages) + incoming <= max_bytes {
        assert(order =~= order.take(order.len() as int));
    } else {
        let rest = order.drop_last();
        lemma_fit_bytes(rest, messages, incoming, max_bytes);
        let kept = fit_bytes(rest, messages, incoming, max_bytes);
        assert(order.take(kept.len() as int) =~= rest.take(kept.len() as int));
    }
}

/// The messages of one topic that can still be sent again.
pub struct BoundedMessageCache {
    recent: LruCache<MessageId, Instant>,
    messages: IdMap<MessageId, CachedMessage>,
    total_bytes: usize,
    max_count: usize,
    max_bytes: usize,
    max_age: Duration,
    evicted_by_age: u64,
    evicted_by_bytes: u64,
    evicted_by_count: u64,
}

/// The estimated wire size of a message.
pub fn estimate_message_bytes(message: &CachedMessage) -> (r: usize)
    ensures
        r == message_bytes(*message),
{
    message.payload.len().saturating_add(MESSAGE_HEADER_OVERHEAD_BYTES).saturating_add(MESSAGE_CRYPTO_OVERHEAD_BYTES)
}

impl BoundedMessageCache {
    /// The cached identifiers with the time of their insertion, most recently used first.
    pub closed spec fn order(&self) -> Seq<(MessageId, Instant)> {
        recency(self.recent)
    }

    /// The cached messages.
    pub closed spec fn messages(&self) -> Map<MessageId, CachedMessage> {
        self.messages@
    }

    pub closed spec fn max_count(&self) -> nat {
        self.max_count as nat
    }

    pub closed spec fn max_bytes(&self) -> nat {
        self.max_bytes as nat
    }

    pub closed spec fn max_age(&self) -> Duration {
        self.max_age
    }

    pub closed spec fn evicted_by_age(&self) -> u64 {
        self.evicted_by_age
    }

    pub closed spec fn evicted_by_bytes(&self) -> u64 {
        self.evicted_by_bytes
    }

    pub closed spec fn evicted_by_count(&self) -> u64 {
        self.evicted_by_count
    }

    /// Nothing is cached, and nothing has been evicted.
    pub open spec fn is_new(&self) -> bool {
        &&& self.order() == Seq::<(MessageId, Instant)>::empty()
        &&& self.messages() == Map::<MessageId, CachedMessage>::empty()
        &&& self.evicted_by_age() == 0
        &&& self.evicted_by_bytes() == 0
        &&& self.evicted_by_count() == 0
    }

    /// The bounds of two caches are the same.
    pub open spec fn same_bounds(&self, other: &Self) -> bool {
        &&& self.max_count() == other.max_count()
        &&& self.max_bytes() == other.max_bytes()
        &&& self.max_age() == other.max_age()
    }

    /// No identifier occurs twice, each has its message, and both bounds hold.
    pub closed spec fn wf(&self) -> bool {
        &&& self.consistent()
        &&& bytes_held(self.order(), self.messages()) <= self.max_bytes
    }

    closed spec fn consistent(&self) -> bool {
        &&& self.messages.wf()
        &&& distinct(self.order())
        &&& self.order().len() <= self.max_count
        &&& 0 < self.max_count <= usize::MAX / 128
        &&& capacity(self.recent) == self.max_count
        &&& forall|k: MessageId| self.messages@.dom().contains(k) == #[trigger] holds(self.order(), k)
        &&& self.total_bytes == bytes_held(self.order(), self.messages())
    }

    pub fn new(max_count: usize, max_bytes: usize, max_age: Duration) -> (r: Self)
        requires
            0 < max_count <= usize::MAX / 128,
        ensures
            r.wf(),
            r.is_new(),
            r.max_count() == max_count,
            r.max_bytes() == max_bytes,
            r.max_age() == max_age,
    {
        BoundedMessageCache {
            recent: lru_new(max_count),
            messages: IdMap::new(),
            total_bytes: 0,
            max_count,
            max_bytes,
            max_age,
            evicted_by_age: 0,
            evicted_by_bytes: 0,
            evicted_by_count: 0,
        }
    }

    /// Takes one entry and its message out; says whether there was one.
    fn take_out(&mut self, msg_id: &MessageId) -> (r: bool)
        requires
            old(self).consistent(),
        ensures
            final(self).consistent(),
            r == holds(old(self).order(), *msg_id),
            final(self).order() == without(old(self).order(), *msg_id),
            final(self).messages() == old(self).messages().remove(*msg_id),
            forall|i: int|
                0 <= i < old(self).order().len() && (#[trigger] old(self).order()[i]).0 == *msg_id
                    ==> final(self).order() == old(self).order().remove(i),
            bytes_held(final(self).order(), final(self).messages()) <= bytes_held(
                old(self).order(),
                old(self).messages(),
            ),
            final(self).same_bounds(old(self)),
            final(self).evicted_by_age() == old(self).evicted_by_age(),
            final(self).evicted_by_bytes() == old(self).evicted_by_bytes(),
            final(self).evicted_by_count() == old(self).evicted_by_count(),
    {
        let ghost before = self.order();
        let ghost held = self.messages@;
        lru_pop(&mut self.recent, msg_id);
        match self.messages.remove(msg_id) {
            Some(existing) => {
                let bytes: usize = estimate_message_bytes(&existing);
                proof {
                    assert(holds(before, *msg_id));
                    let i = choose|i: int| 0 <= i < before.len() && (#[trigger] before[i]).0 == *msg_id;
                    crate::recency::lemma_without_at(before, i);
                    lemma_bytes_remove(before, held, i);
                    let after = before.remove(i);
                    assert forall|k: MessageId| self.messages@.dom().contains(k) == #[trigger] holds(after, k) by {
                        lemma_holds_remove(before, i, k);
                    }
                    lemma_bytes_agree(after, held, self.messages@);
                    assert(distinct(after));
                }
                self.total_bytes = self.total_bytes.saturating_sub(bytes);
                true
            },
            None => {
                proof {
                    assert(!holds(before, *msg_id));
                    crate::recency::lemma_without_absent(before, *msg_id);
                    assert(held.remove(*msg_id) =~= held);
                }
                false
            },
        }
    }

    /// Drops the entries that have reached the greatest age.
    pub fn prune_expired_at(&mut self, now: Instant)
        requires
            old(self).wf(),
        ensures
            final(self).wf(),
            final(self).order() == fresh_at(old(self).order(), now, old(self).max_age()),
            final(self).messages() == named_in(old(self).messages(), final(self).order()),
            final(self).same_bounds(old(self)),
            final(self).evicted_by_age() == counted(
                old(self).evicted_by_age(),
                (old(self).order().len() - final(self).order().len()) as nat,
            ),
            final(self).evicted_by_bytes() == old(self).evicted_by_bytes(),
            final(self).evicted_by_count() == old(self).evicted_by_count(),
    {
        let entries: Vec<(MessageId, Instant)> = lru_entries(&self.recent);
        let ghost all = entries@;
        let ghost max_age = self.max_age;
        let mut i: usize = 0;
        proof {
            lemma_fresh_none(all, now, max_age);
            assert(self.messages() =~= named_in(old(self).messages(), self.order()));
        }
        while i < entries.len()
            invariant
                i <= entries@.len(),
                entries@ == all,
                all == old(self).order(),
                distinct(all),
                max_age == old(self).max_age(),
                self.max_age == max_age,
                self.consistent(),
                self.order() == fresh_at(all.take(i as int), now, max_age) + all.skip(i as int),
                fresh_at(all.take(i as int), now, max_age).len() <= i,
                forall|k: MessageId| #[trigger] self.messages@.dom().contains(k) ==> old(self).messages@.dom().contains(k)
                    && self.messages@[k] == old(self).messages@[k],
                bytes_held(self.order(), self.messages()) <= old(self).max_bytes,
                self.same_bounds(old(self)),
                self.evicted_by_age == counted(
                    old(self).evicted_by_age,
                    (i - fresh_at(all.take(i as int), now, max_age).len()) as nat,
                ),
                self.evicted_by_bytes == old(self).evicted_by_bytes,
                self.evicted_by_count == old(self).evicted_by_count,
            decreases entries@.len() - i,
        {
            let entry = entries[i];
            proof {
                lemma_fresh_step(all, i as int, now, max_age);
            }
            if now.saturating_duration_since(entry.1).nanos >= self.max_age.nanos {
                if self.take_out(&entry.0) {
                    self.evicted_by_age = self.evicted_by_age.saturating_add(1);
                }
            }
            i = i + 1;
        }
        proof {
            assert(all.take(all.len() as int) =~= all);
            assert(self.order() =~= fresh_at(all, now, max_age));
            assert(self.messages() =~= named_in(old(self).messages(), self.order()));
        }
    }

    /// Takes the least recently used entry and its message out; says whether there was one.
    fn drop_oldest(&mut self) -> (r: bool)
        requires
            old(self).consistent(),
        ensures
            final(self).consistent(),
            r == (old(self).order().len() > 0),
            r ==> {
                &&& final(self).order() == old(self).order().drop_last()
                &&& final(self).messages() == old(self).messages().remove(old(self).order().last().0)
                &&& bytes_held(final(self).order(), final(self).messages()) == bytes_held(
                    final(self).order(),
                    old(self).messages(),
                )
            },
            !r ==> final(self).order() == old(self).order() && final(self).messages() == old(self).messages(),
            final(self).same_bounds(old(self)),
            final(self).evicted_by_age() == old(self).evicted_by_age(),
            final(self).evicted_by_bytes() == old(self).evicted_by_bytes(),
            final(self).evicted_by_count() == old(self).evicted_by_count(),
    {
        let ghost before = self.order();
        let ghost held = self.messages@;
        let popped = lru_pop_lru(&mut self.recent);
        match popped {
            Some(entry) => {
                proof {
                    let i = before.len() - 1;
                    assert(before[i].0 == entry.0);
                    assert(holds(before, entry.0));
                }
                let removed = self.messages.remove(&entry.0);
                let bytes: usize = match &removed {
                    Some(message) => estimate_message_bytes(message),
                    None => 0,
                };
                proof {
                    let i = before.len() - 1;
                    lemma_bytes_remove(before, held, i);
                    let after = before.drop_last();
                    assert(before.remove(i) =~= after);
                    assert forall|k: MessageId| self.messages@.dom().contains(k) == #[trigger] holds(after, k) by {
                        lemma_holds_remove(before, i, k);
                    }
                    lemma_bytes_agree(after, held, self.messages@);
                }
                self.total_bytes = self.total_bytes.saturating_sub(bytes);
                true
            },
            None => false,
        }
    }

    /// Evicts the least recently used messages until `incoming_bytes` more fit.
    fn ensure_bytes_capacity(&mut self, incoming_bytes: usize)
        requires
            old(self).wf(),
            incoming_bytes <= old(self).max_bytes(),
        ensures
            final(self).wf(),
            final(self).order() == fit_bytes(
                old(self).order(),
                old(self).messages(),
                incoming_bytes as nat,
                old(self).max_bytes(),
            ),
            final(self).messages() == named_in(old(self).messages(), final(self).order()),
            final(self).same_bounds(old(self)),
            final(self).evicted_by_age() == old(self).evicted_by_age(),
            final(self).evicted_by_bytes() == counted(
                old(self).evicted_by_bytes(),
                (old(self).order().len() - final(self).order().len()) as nat,
            ),
            final(self).evicted_by_count() == old(self).evicted_by_count(),
    {
        let ghost messages = self.messages@;
        let ghost target = fit_bytes(self.order(), messages, incoming_bytes as nat, self.max_bytes as nat);
        assert(self.messages() =~= named_in(messages, self.order()));
        while incoming_bytes > self.max_bytes - self.total_bytes && lru_len(&self.recent) > 0
            invariant
                self.wf(),
                incoming_bytes <= self.max_bytes,
                self.order().len() <= old(self).order().len(),
                self.messages@ == named_in(messages, self.order()),
                bytes_held(self.order(), self.messages@) == bytes_held(self.order(), messages),
                target == fit_bytes(self.order(), messages, incoming_bytes as nat, self.max_bytes as nat),
                self.same_bounds(old(self)),
                self.evicted_by_age == old(self).evicted_by_age,
                self.evicted_by_bytes == counted(
                    old(self).evicted_by_bytes,
                    (old(self).order().len() - self.order().len()) as nat,
                ),
                self.evicted_by_count == old(self).evicted_by_count,
            decreases self.order().len(),
        {
            let ghost before = self.order();
            let ghost held = self.messages@;
            self.drop_oldest();
            self.evicted_by_bytes = self.evicted_by_bytes.saturating_add(1);
            proof {
                lemma_named_drop_last(messages, before);
                lemma_bytes_agree(self.order(), self.messages@, messages);
                assert(before.last() == before[before.len() - 1]);
                lemma_bytes_remove(before, held, before.len() - 1);
                assert(before.remove(before.len() - 1) =~= before.drop_last());
            }
        }
        assert(self.order() == target);
    }

    /// Evicts the least recently used messages until one more fits.
    fn ensure_count_capacity_for_insert(&mut self)
        requires
            old(self).wf(),
        ensures
            final(self).wf(),
            final(self).order() == fit_count(old(self).order(), old(self).max_count()),
            final(self).messages() == named_in(old(self).messages(), final(self).order()),
            final(self).same_bounds(old(self)),
            final(self).evicted_by_age() == old(self).evicted_by_age(),
            final(self).evicted_by_bytes() == old(self).evicted_by_bytes(),
            final(self).evicted_by_count() == counted(
                old(self).evicted_by_count(),
                (old(self).order().len() - final(self).order().len()) as nat,
            ),
    {
        let ghost messages = self.messages@;
        assert(self.messages() =~= named_in(messages, self.order()));
        assert(self.order() =~= self.order().take(self.order().len() as int));
        while lru_len(&self.recent).saturating_add(1) > self.max_count && lru_len(&self.recent) > 0
            invariant
                self.wf(),
                self.order().len() <= old(self).order().len(),
                self.order() == old(self).order().take(self.order().len() as int),
                self.order().len() + 1 >= self.max_count || self.order() == old(self).order(),
                self.messages@ == named_in(messages, self.order()),
                self.same_bounds(old(self)),
                self.evicted_by_age == old(self).evicted_by_age,
                self.evicted_by_bytes == old(self).evicted_by_bytes,
                self.evicted_by_count == counted(
                    old(self).evicted_by_count,
                    (old(self).order().len() - self.order().len()) as nat,
                ),
            decreases self.order().len(),
        {
            let ghost before = self.order();
            let ghost held = self.messages@;
            self.drop_oldest();
            self.evicted_by_count = self.evicted_by_count.saturating_add(1);
            proof {
                lemma_named_drop_last(messages, before);
                lemma_bytes_agree(self.order(), self.messages@, held);
                lemma_bytes_remove(before, held, before.len() - 1);
                assert(before.remove(before.len() - 1) =~= before.drop_last());
                assert(self.order() =~= old(self).order().take(self.order().len() as int));
            }
        }
    }

    /// Caches a message, in front of all others and in place of an earlier one with its
    /// identifier; says whether it was cached. One that is larger than the whole cache is not.
    ///
    /// Room is made by age first, then by bytes, then by count.
    pub fn insert_at(&mut self, msg_id: MessageId, message: CachedMessage, now: Instant) -> (r: bool)
        requires
            old(self).wf(),
        ensures
            final(self).wf(),
            r == (message_bytes(message) <= old(self).max_bytes()),
            ({
                let fresh = fresh_at(old(self).order(), now, old(self).max_age());
                let (aged, sized, room) = room_for(
                    old(self).order(),
                    old(self).messages(),
                    msg_id,
                    message_bytes(message),
                    now,
                    *old(self),
                );
                &&& final(self).order() == (if r { in_front(room, msg_id, now) } else { aged })
                &&& final(self).messages() == (if r {
                    named_in(old(self).messages(), room).insert(msg_id, message)
                } else {
                    named_in(old(self).messages(), aged)
                })
                &&& final(self).evicted_by_age() == counted(
                    old(self).evicted_by_age(),
                    (old(self).order().len() - fresh.len()) as nat,
                )
                &&& final(self).evicted_by_bytes() == (if r {
                    counted(old(self).evicted_by_bytes(), (aged.len() - sized.len()) as nat)
                } else {
                    old(self).evicted_by_bytes() as nat
                })
                &&& final(self).evicted_by_count() == (if r {
                    counted(old(self).evicted_by_count(), (sized.len() - room.len()) as nat)
                } else {
                    old(self).evicted_by_count() as nat
                })
            }),
            final(self).same_bounds(old(self)),
    {
        let ghost held = self.messages@;
        let bytes: usize = estimate_message_bytes(&message);
        self.prune_expired_at(now);
        let ghost fresh = self.order();
        self.take_out(&msg_id);
        let ghost aged = self.order();
        proof {
            lemma_without_holds(fresh, msg_id);
            assert(self.messages() =~= named_in(held, aged));
        }
        if bytes > self.max_bytes {
            return false;
        }
        self.ensure_bytes_capacity(bytes);
        let ghost sized = self.order();
        proof {
            lemma_fit_bytes_agree(aged, named_in(held, aged), held, bytes as nat, self.max_bytes as nat);
            lemma_fit_bytes(aged, held, bytes as nat, self.max_bytes as nat);
            lemma_take_holds(aged, sized.len() as int);
            assert(self.messages() =~= named_in(held, sized));
            lemma_bytes_agree(sized, self.messages@, held);
        }
        self.ensure_count_capacity_for_insert();
        let ghost room = self.order();
        let ghost kept = self.messages@;
        proof {
            assert(room == sized.take(room.len() as int)) by {
                assert(sized =~= sized.take(sized.len() as int));
            }
            lemma_take_holds(sized, room.len() as int);
            assert(kept =~= named_in(held, room));
            lemma_take_bytes(sized, held, room.len() as int);
            lemma_bytes_agree(room, kept, held);
        }
        self.total_bytes = self.total_bytes.saturating_add(bytes);
        lru_push(&mut self.recent, msg_id, now);
        self.messages.insert(msg_id, message);
        proof {
            assert(!holds(room, msg_id));
            assert(self.order() == in_front(room, msg_id, now));
            lemma_bytes_front(room, self.messages@, msg_id, now);
            lemma_bytes_agree(room, self.messages@, kept);
            lemma_front_holds(room, msg_id, now);
        }
        true
    }

    /// A cached message that has not reached the greatest age; it becomes the most recently used.
    pub fn get_at(&mut self, msg_id: &MessageId, now: Instant) -> (r: Option<&CachedMessage>)
        requires
            old(self).wf(),
        ensures
            final(self).wf(),
            ({
                let fresh = fresh_at(old(self).order(), now, old(self).max_age());
                &&& final(self).order() == (if holds(fresh, *msg_id) {
                    in_front(without(fresh, *msg_id), *msg_id, value_of(fresh, *msg_id))
                } else {
                    fresh
                })
                &&& final(self).messages() == named_in(old(self).messages(), fresh)
                &&& match r {
                    Some(message) => holds(fresh, *msg_id) && *message == old(self).messages()[*msg_id],
                    None => !holds(fresh, *msg_id),
                }
                &&& final(self).evicted_by_age() == counted(
                    old(self).evicted_by_age(),
                    (old(self).order().len() - fresh.len()) as nat,
                )
            }),
            final(self).same_bounds(old(self)),
            final(self).evicted_by_bytes() == old(self).evicted_by_bytes(),
            final(self).evicted_by_count() == old(self).evicted_by_count(),
    {
        self.prune_expired_at(now);
        let ghost fresh = self.order();
        lru_get(&mut self.recent, msg_id);
        proof {
            if holds(fresh, *msg_id) {
                lemma_promote(fresh, self.messages@, *msg_id);
            }
        }
        self.messages.get(msg_id)
    }

    pub fn contains(&self, msg_id: &MessageId) -> (r: bool)
        ensures
            r == holds(self.order(), *msg_id),
    {
        lru_contains(&self.recent, msg_id)
    }

    /// The cached identifiers, most recently used first.
    pub fn ids(&self) -> (r: Vec<MessageId>)
        ensures
            r@ == self.order().map_values(|e: (MessageId, Instant)| e.0),
    {
        let entries = lru_entries(&self.recent);
        let mut r: Vec<MessageId> = Vec::new();
        let mut i: usize = 0;
        while i < entries.len()
            invariant
                i <= entries@.len(),
                entries@ == self.order(),
                r@.len() == i,
                forall|j: int| 0 <= j < i ==> r@[j] == (#[trigger] entries@[j]).0,
            decreases entries@.len() - i,
        {
            r.push(entries[i].0);
            i = i + 1;
        }
        assert(r@ =~= self.order().map_values(|e: (MessageId, Instant)| e.0));
        r
    }

    pub fn len(&self) -> (r: usize)
        ensures
            r == self.order().len(),
    {
        lru_len(&self.recent)
    }

    /// What the cache holds and has evicted. An age of more seconds than a `u64` counts is held
    /// at the largest one.
    pub fn stats_at(&self, now: Instant) -> (r: CacheStatsSnapshot)
        requires
            self.wf(),
        ensures
            r.msg_count == self.order().len(),
            r.total_bytes == bytes_held(self.order(), self.messages()),
            r.oldest_age_secs == (if oldest_secs(self.order(), now) <= u64::MAX {
                oldest_secs(self.order(), now)
            } else {
                u64::MAX as nat
            }),
            r.evicted_by_age == self.evicted_by_age(),
            r.evicted_by_bytes == self.evicted_by_bytes(),
            r.evicted_by_count == self.evicted_by_count(),
    {
        let entries = lru_entries(&self.recent);
        let mut oldest: u128 = 0;
        let mut i: usize = 0;
        while i < entries.len()
            invariant
                i <= entries@.len(),
                entries@ == self.order(),
                oldest == oldest_secs(entries@.take(i as int), now),
            decreases entries@.len() - i,
        {
            let age: u128 = now.saturating_duration_since(entries[i].1).as_secs();
            proof {
                assert(entries@.take(i + 1).drop_last() =~= entries@.take(i as int));
                assert(entries@.take(i + 1).last() == entries@[i as int]);
            }
            if age >= oldest {
                oldest = age;
            }
            i = i + 1;
        }
        assert(entries@.take(entries@.len() as int) =~= entries@);
        let oldest_age_secs: u64 = if oldest <= u64::MAX as u128 { oldest as u64 } else { u64::MAX };
        CacheStatsSnapshot {
            msg_count: lru_len(&self.recent),
            total_bytes: self.total_bytes,
            oldest_age_secs,
            evicted_by_age: self.evicted_by_age,
            evicted_by_bytes: self.evicted_by_bytes,
            evicted_by_count: self.evicted_by_count,
        }
    }
}

/// A cache holds no more messages and no more bytes than it may, each identifier once and with its
/// message.
pub proof fn cache_keeps_its_bounds(cache: BoundedMessageCache)
    requires
        cache.wf(),
    ensures
        cache.order().len() <= cache.max_count(),
        bytes_held(cache.order(), cache.messages()) <= cache.max_bytes(),
        distinct(cache.order()),
        forall|k: MessageId| cache.messages().dom().contains(k) <==> #[trigger] holds(cache.order(), k),
{
}

/// Whatever survives a look at the clock is younger than the greatest age, and all that is younger
/// survives.
pub proof fn only_fresh_entries_survive(order: Seq<(MessageId, Instant)>, now: Instant, max_age: Duration)
    ensures
        forall|e: (MessageId, Instant)|
            #[trigger] fresh_at(order, now, max_age).contains(e) <==> order.contains(e) && elapsed_between(now, e.1)
                < max_age.nanos,
{
    crate::recency::lemma_filter_members(order, |e: (MessageId, Instant)| elapsed_between(now, e.1) < max_age.nanos);
}

/// A message that was put in front can be read until it reaches the greatest age.
pub proof fn cached_message_reads_back(
    room: Seq<(MessageId, Instant)>,
    msg_id: MessageId,
    inserted_at: Instant,
    later: Instant,
    max_age: Duration,
)
    requires
        elapsed_between(later, inserted_at) < max_age.nanos,
    ensures
        holds(fresh_at(in_front(room, msg_id, inserted_at), later, max_age), msg_id),
{
    let order = in_front(room, msg_id, inserted_at);
    only_fresh_entries_survive(order, later, max_age);
    assert(order[0] == (msg_id, inserted_at));
    assert(order.contains((msg_id, inserted_at)));
    let fresh = fresh_at(order, later, max_age);
    assert(fresh.contains((msg_id, inserted_at)));
    crate::recency::lemma_holds(fresh, msg_id);
}

/// A message at the greatest age cannot be read.
pub proof fn aged_message_is_gone(
    order: Seq<(MessageId, Instant)>,
    msg_id: MessageId,
    now: Instant,
    max_age: Duration,
)
    requires
        forall|i: int|
            0 <= i < order.len() && (#[trigger] order[i]).0 == msg_id ==> elapsed_between(now, order[i].1)
                >= max_age.nanos,
    ensures
        !holds(fresh_at(order, now, max_age), msg_id),
{
    only_fresh_entries_survive(order, now, max_age);
    let fresh = fresh_at(order, now, max_age);
    if holds(fresh, msg_id) {
        crate::recency::lemma_holds(fresh, msg_id);
        let t = choose|t: Instant| fresh.contains((msg_id, t));
        assert(order.contains((msg_id, t)));
        let i = order.index_of((msg_id, t));
        assert(order[i].0 == msg_id);
    }
}

pub proof fn lemma_without_holds(order: Seq<(MessageId, Instant)>, key: MessageId)
    requires
        distinct(order),
    ensures
        forall|k: MessageId| #[trigger] holds(without(order, key), k) <==> holds(order, k) && k != key,
{
    if holds(order, key) {
        let i = choose|i: int| 0 <= i < order.len() && (#[trigger] order[i]).0 == key;
        crate::recency::lemma_without_at(order, i);
        assert forall|k: MessageId| #[trigger] holds(without(order, key), k) <==> holds(order, k) && k != key by {
            lemma_holds_remove(order, i, k);
        }
    } else {
        crate::recency::lemma_without_absent(order, key);
    }
}

pub proof fn lemma_take_holds(order: Seq<(MessageId, Instant)>, n: int)
    requires
        0 <= n <= order.len(),
    ensures
        forall|k: MessageId| #[trigger] holds(order.take(n), k) ==> holds(order, k),
{
    assert forall|k: MessageId| #[trigger] holds(order.take(n), k) implies holds(order, k) by {
        let i = choose|i: int| 0 <= i < order.take(n).len() && (#[trigger] order.take(n)[i]).0 == k;
        assert(order[i].0 == k);
    }
}

proof fn lemma_take_bytes(order: Seq<(MessageId, Instant)>, messages: Map<MessageId, CachedMessage>, n: int)
    requires
        0 <= n <= order.len(),
    ensures
        bytes_held(order.take(n), messages) <= bytes_held(order, messages),
    decreases order.len(),
{
    if n < order.len() {
        lemma_take_bytes(order.drop_last(), messages, n);
        assert(order.drop_last().take(n) =~= order.take(n));
    } else {
        assert(order.take(n) =~= order);
    }
}

pub proof fn lemma_front_holds(order: Seq<(MessageId, Instant)>, key: MessageId, at: Instant)
    requires
        distinct(order),
        !holds(order, key),
    ensures
        distinct(in_front(order, key, at)),
        forall|k: MessageId| #[trigger] holds(in_front(order, key, at), k) <==> holds(order, k) || k == key,
{
    let all = in_front(order, key, at);
    assert forall|i: int, j: int| 0 <= i < j < all.len() implies (#[trigger] all[i]).0 != (#[trigger] all[j]).0 by {
        assert(all[j] == order[j - 1]);
        if i > 0 {
            assert(all[i] == order[i - 1]);
        }
    }
    assert forall|k: MessageId| #[trigger] holds(all, k) <==> holds(order, k) || k == key by {
        if holds(order, k) {
            let i = choose|i: int| 0 <= i < order.len() && (#[trigger] order[i]).0 == k;
            assert(all[i + 1].0 == k);
        }
        assert(all[0].0 == key);
        if holds(all, k) && k != key {
            let i = choose|i: int| 0 <= i < all.len() && (#[trigger] all[i]).0 == k;
            assert(order[i - 1].0 == k);
        }
    }
}

proof fn lemma_fit_bytes_agree(
    order: Seq<(MessageId, Instant)>,
    a: Map<MessageId, CachedMessage>,
    b: Map<MessageId, CachedMessage>,
    incoming: nat,
    max_bytes: nat,
)
    requires
        forall|k: MessageId| #[trigger] holds(order, k) ==> a[k] == b[k],
    ensures
        fit_bytes(order, a, incoming, max_bytes) == fit_bytes(order, b, incoming, max_bytes),
    decreases order.len(),
{
    lemma_bytes_agree(order, a, b);
    if order.len() > 0 {
        let rest = order.drop_last();
        assert forall|k: MessageId| #[trigger] holds(rest, k) implies a[k] == b[k] by {
            let i = choose|i: int| 0 <= i < rest.len() && (#[trigger] rest[i]).0 == k;
            assert(order[i].0 == k);
            assert(holds(order, k));
        }
        lemma_fit_bytes_agree(rest, a, b, incoming, max_bytes);
    }
}

pub proof fn lemma_promote(order: Seq<(MessageId, Instant)>, messages: Map<MessageId, CachedMessage>, key: MessageId)
    requires
        distinct(order),
        holds(order, key),
    ensures
        ({
            let moved = in_front(without(order, key), key, value_of(order, key));
            &&& distinct(moved)
            &&& moved.len() == order.len()
            &&& bytes_held(moved, messages) == bytes_held(order, messages)
            &&& forall|k: MessageId| #[trigger] holds(moved, k) <==> holds(order, k)
        }),
{
    let i = choose|i: int| 0 <= i < order.len() && (#[trigger] order[i]).0 == key;
    crate::recency::lemma_without_at(order, i);
    lemma_bytes_remove(order, messages, i);
    let rest = without(order, key);
    assert(distinct(rest));
    lemma_without_holds(order, key);
    lemma_front_holds(rest, key, value_of(order, key));
    lemma_bytes_front(rest, messages, key, value_of(order, key));
}

proof fn lemma_named_drop_last(messages: Map<MessageId, CachedMessage>, order: Seq<(MessageId, Instant)>)
    requires
        distinct(order),
        order.len() > 0,
    ensures
        named_in(messages, order).remove(order.last().0) == named_in(messages, order.drop_last()),
        forall|k: MessageId| #[trigger] holds(order.drop_last(), k) ==> k != order.last().0 && holds(order, k),
{
    let i = order.len() - 1;
    assert(order.remove(i) =~= order.drop_last());
    assert forall|k: MessageId| #[trigger] holds(order.drop_last(), k) <==> holds(order, k) && k != order.last().0 by {
        lemma_holds_remove(order, i, k);
    }
    assert(named_in(messages, order).remove(order.last().0) =~= named_in(messages, order.drop_last()));
}

proof fn lemma_fresh_none(all: Seq<(MessageId, Instant)>, now: Instant, max_age: Duration)
    ensures
        fresh_at(all.take(0), now, max_age).len() == 0,
        all == fresh_at(all.take(0), now, max_age) + all.skip(0),
{
    reveal(Seq::filter);
    assert(all =~= fresh_at(all.take(0), now, max_age) + all.skip(0));
}

proof fn lemma_fresh_step(all: Seq<(MessageId, Instant)>, i: int, now: Instant, max_age: Duration)
    requires
        0 <= i < all.len(),
    ensures
        ({
            let kept = fresh_at(all.take(i), now, max_age);
            let next = fresh_at(all.take(i + 1), now, max_age);
            let mixed = kept + all.skip(i);
            &&& kept.len() < mixed.len()
            &&& mixed[kept.len() as int] == all[i]
            &&& elapsed_between(now, all[i].1) < max_age.nanos ==> {
                &&& next.len() == kept.len() + 1
                &&& mixed == next + all.skip(i + 1)
            }
            &&& elapsed_between(now, all[i].1) >= max_age.nanos ==> {
                &&& next == kept
                &&& mixed.remove(kept.len() as int) == next + all.skip(i + 1)
            }
        }),
{
    reveal(Seq::filter);
    assert(all.take(i + 1).drop_last() =~= all.take(i));
    assert(all.take(i + 1).last() == all[i]);
    let kept = fresh_at(all.take(i), now, max_age);
    assert((kept + all.skip(i)).remove(kept.len() as int) =~= kept + all.skip(i + 1));
    assert(kept + all.skip(i) =~= kept.push(all[i]) + all.skip(i + 1));
}

proof fn lemma_holds_remove(order: Seq<(MessageId, Instant)>, i: int, k: MessageId)
    requires
        distinct(order),
        0 <= i < order.len(),
    ensures
        holds(order.remove(i), k) <==> holds(order, k) && k != order[i].0,
{
    let after = order.remove(i);
    if holds(after, k) {
        let j = choose|j: int| 0 <= j < after.len() && (#[trigger] after[j]).0 == k;
        let m = if j < i { j } else { j + 1 };
        assert(order[m].0 == k);
    }
    if holds(order, k) && k != order[i].0 {
        let m = choose|m: int| 0 <= m < order.len() && (#[trigger] order[m]).0 == k;
        let j = if m < i { m } else { m - 1 };
        assert(after[j].0 == k);
    }
}

/// A message is cached and has not reached the greatest age.
pub open spec fn can_be_had(cache: BoundedMessageCache, msg_id: MessageId, now: Instant) -> bool {
    exists|i: int|
        {
            &&& 0 <= i < cache.order().len()
            &&& (#[trigger] cache.order()[i]).0 == msg_id
            &&& if now.nanos >= cache.order()[i].1.nanos {
                now.nanos - cache.order()[i].1.nanos < cache.max_age().nanos
            } else {
                0 < cache.max_age().nanos
            }
        }
}

/// What survives a look at the clock is exactly what can be had.
pub proof fn fresh_entries_can_be_had(cache: BoundedMessageCache, now: Instant)
    requires
        cache.wf(),
    ensures
        cache.max_bytes() <= usize::MAX,
        cache.max_count() >= 1,
        distinct(fresh_at(cache.order(), now, cache.max_age())),
        forall|k: MessageId| #[trigger]
            holds(fresh_at(cache.order(), now, cache.max_age()), k) <==> can_be_had(cache, k, now),
        forall|k: MessageId| #[trigger] can_be_had(cache, k, now) ==> cache.messages().dom().contains(k),
{
    let order = cache.order();
    let fresh = fresh_at(order, now, cache.max_age());
    cache_keeps_its_bounds(cache);
    only_fresh_entries_survive(order, now, cache.max_age());
    crate::recency::lemma_filter_distinct(
        order,
        |e: (MessageId, Instant)| elapsed_between(now, e.1) < cache.max_age().nanos,
    );
    assert forall|k: MessageId| #[trigger] holds(fresh, k) <==> can_be_had(cache, k, now) by {
        crate::recency::lemma_holds(fresh, k);
        if holds(fresh, k) {
            let t = choose|t: Instant| fresh.contains((k, t));
            assert(order.contains((k, t)));
            let i = order.index_of((k, t));
            assert(order[i].0 == k);
        }
        if can_be_had(cache, k, now) {
            let i = choose|i: int|
                {
                    &&& 0 <= i < order.len()
                    &&& (#[trigger] order[i]).0 == k
                    &&& if now.nanos >= order[i].1.nanos {
                        now.nanos - order[i].1.nanos < cache.max_age().nanos
                    } else {
                        0 < cache.max_age().nanos
                    }
                };
            assert(order.contains(order[i]));
            assert(fresh.contains(order[i]));
            assert(order[i] == (k, order[i].1));
        }
    }
    assert forall|k: MessageId| #[trigger] can_be_had(cache, k, now) implies cache.messages().dom().contains(k) by {
        assert(holds(order, k));
    }
}

/// Room for a message is made at the cost of the least recently used, and of no more than need be.
/// What has reached the greatest age goes first, and an earlier message with the same identifier;
/// of the others the most recently used stay, as many as there is room for.
pub proof fn room_is_made_at_the_cost_of_the_least_recent(
    cache: BoundedMessageCache,
    id: MessageId,
    bytes: nat,
    now: Instant,
)
    requires
        cache.wf(),
        bytes <= cache.max_bytes(),
    ensures
        ({
            let (aged, sized, room) = room_for(cache.order(), cache.messages(), id, bytes, now, cache);
            &&& forall|k: MessageId| #[trigger] holds(aged, k) <==> can_be_had(cache, k, now) && k != id
            &&& exists|at: Seq<int>| #[trigger] picks(at, aged, cache.order())
            &&& room.len() <= sized.len() <= aged.len()
            &&& sized == aged.take(sized.len() as int)
            &&& room == aged.take(room.len() as int)
            &&& room.len() + 1 <= cache.max_count()
            &&& bytes_held(room, cache.messages()) + bytes <= cache.max_bytes()
            &&& sized.len() < aged.len() ==> bytes_held(aged.take(sized.len() as int + 1), cache.messages()) + bytes
                > cache.max_bytes()
            &&& room.len() < sized.len() ==> room.len() + 1 == cache.max_count()
        }),
{
    let order = cache.order();
    let messages = cache.messages();
    let fresh = fresh_at(order, now, cache.max_age());
    let (aged, sized, room) = room_for(order, messages, id, bytes, now, cache);
    fresh_entries_can_be_had(cache, now);
    lemma_without_holds(fresh, id);
    lemma_fit_bytes(aged, messages, bytes, cache.max_bytes());
    lemma_fit_bytes_longest(aged, messages, bytes, cache.max_bytes());
    assert(room =~= aged.take(room.len() as int));
    lemma_take_bytes(sized, messages, room.len() as int);
    assert(sized.take(room.len() as int) =~= room);
    let first = crate::order::lemma_filter_positions(
        order,
        |e: (MessageId, Instant)| elapsed_between(now, e.1) < cache.max_age().nanos,
    );
    let second = crate::order::lemma_filter_positions(fresh, crate::recency::other_key(id));
    let at = Seq::new(second.len(), |j: int| first[second[j]]);
    assert forall|j: int| 0 <= j < at.len() implies 0 <= #[trigger] at[j] < order.len() && order[at[j]] == aged[j] by {
        assert(0 <= second[j] < fresh.len());
        assert(fresh[second[j]] == order[first[second[j]]]);
    }
    assert forall|i: int, j: int| 0 <= i < j < at.len() implies #[trigger] at[i] < #[trigger] at[j] by {
        assert(second[i] < second[j]);
        assert(first[second[i]] < first[second[j]]);
    }
    assert(picks(at, aged, order));
}

proof fn lemma_fit_bytes_longest(
    order: Seq<(MessageId, Instant)>,
    messages: Map<MessageId, CachedMessage>,
    incoming: nat,
    max_bytes: nat,
)
    ensures
        ({
            let kept = fit_bytes(order, messages, incoming, max_bytes);
            kept.len() < order.len() ==> bytes_held(order.take(kept.len() as int + 1), messages) + incoming > max_bytes
        }),
    decreases order.len(),
{
    if !(order.len() == 0 || bytes_held(order, messages) + incoming <= max_bytes) {
        let rest = order.drop_last();
        lemma_fit_bytes_longest(rest, messages, incoming, max_bytes);
        lemma_fit_bytes(rest, messages, incoming, max_bytes);
        let kept = fit_bytes(rest, messages, incoming, max_bytes);
        if kept.len() < rest.len() {
            assert(order.take(kept.len() as int + 1) =~= rest.take(kept.len() as int + 1));
        } else {
            assert(order.take(kept.len() as int + 1) =~= order);
        }
    }
}

/// The estimated size of a message in numbers: its payload and what goes with it.
pub proof fn messages_weigh_their_payload_and_overhead(message: CachedMessage, order: Seq<(MessageId, Instant)>, messages: Map<MessageId, CachedMessage>, id: MessageId, at: Instant)
    ensures
        message.payload@.len() + MESSAGE_HEADER_OVERHEAD_BYTES + MESSAGE_CRYPTO_OVERHEAD_BYTES <= usize::MAX
            ==> message_bytes(message) == message.payload@.len() + MESSAGE_HEADER_OVERHEAD_BYTES
            + MESSAGE_CRYPTO_OVERHEAD_BYTES,
        bytes_held(Seq::<(MessageId, Instant)>::empty(), messages) == 0,
        bytes_held(order.push((id, at)), messages) == bytes_held(order, messages) + message_bytes(messages[id]),
{
    assert(order.push((id, at)).drop_last() =~= order);
}

/// The messages that stay weigh no more than all of them.
pub proof fn lemma_fresh_bytes(cache: BoundedMessageCache, id: MessageId, now: Instant)
    ensures
        ({
            let aged = without(fresh_at(cache.order(), now, cache.max_age()), id);
            bytes_held(aged, cache.messages()) <= bytes_held(cache.order(), cache.messages()) && aged.len()
                <= cache.order().len()
        }),
{
    lemma_filter_bytes(
        cache.order(),
        cache.messages(),
        |e: (MessageId, Instant)| elapsed_between(now, e.1) < cache.max_age().nanos,
    );
    lemma_filter_bytes(
        fresh_at(cache.order(), now, cache.max_age()),
        cache.messages(),
        crate::recency::other_key(id),
    );
}

proof fn lemma_filter_bytes(
    order: Seq<(MessageId, Instant)>,
    messages: Map<MessageId, CachedMessage>,
    pred: spec_fn((MessageId, Instant)) -> bool,
)
    ensures
        bytes_held(order.filter(pred), messages) <= bytes_held(order, messages),
        order.filter(pred).len() <= order.len(),
    decreases order.len(),
{
    reveal(Seq::filter);
    if order.len() > 0 {
        let rest = order.drop_last();
        lemma_filter_bytes(rest, messages, pred);
        let kept = rest.filter(pred);
        assert(kept.push(order.last()).drop_last() =~= kept);
    }
}

/// What is counted in numbers, and the age that is reported: that of the oldest entry, in whole
/// seconds.
pub proof fn counts_and_ages_in_numbers(counter: u64, n: nat, order: Seq<(MessageId, Instant)>, now: Instant, i: int)
    requires
        0 <= i < order.len(),
    ensures
        counter + n <= u64::MAX ==> counted(counter, n) == counter + n,
        counter + n > u64::MAX ==> counted(counter, n) == u64::MAX,
        now.nanos >= order[i].1.nanos ==> oldest_secs(order, now) >= (now.nanos - order[i].1.nanos)
            / NANOS_PER_SEC as int,
        exists|j: int|
            0 <= j < order.len() && oldest_secs(order, now) == elapsed_between(now, (#[trigger] order[j]).1)
                / NANOS_PER_SEC as nat,
    decreases order.len(),
{
    let last = order.len() - 1;
    let rest = order.drop_last();
    if rest.len() > 0 {
        counts_and_ages_in_numbers(counter, n, rest, now, if i < last { i } else { 0 });
        let j = choose|j: int|
            0 <= j < rest.len() && oldest_secs(rest, now) == elapsed_between(now, (#[trigger] rest[j]).1)
                / NANOS_PER_SEC as nat;
        assert(order[j] == rest[j]);
        if i < last {
            assert(order[i] == rest[i]);
        }
    }
    assert(order[last] == order.last());
    let age = elapsed_between(now, order[last].1) / (NANOS_PER_SEC as nat);
    assert(oldest_secs(order, now) == if age >= oldest_secs(rest, now) { age } else { oldest_secs(rest, now) });
    assert(rest.len() == 0 ==> oldest_secs(rest, now) == 0);
}

} // verus!
