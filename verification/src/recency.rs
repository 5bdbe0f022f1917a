//! The least-recently-used cache of the `lru` crate, keyed by 32-byte hashes and holding instants.
//!
//! What a cache holds is named by `recency`, most recently used entry first, and the limit that it
//! was made with by `capacity`. Every method that the library calls is stated over these two names.

use lru::LruCache;
use vstd::prelude::*;

use crate::time::Instant;

verus! {

/// A cache that gives up its least recently used entry where it is full.
#[verifier::external_type_specification]
#[verifier::external_body]
#[verifier::reject_recursive_types(K)]
#[verifier::reject_recursive_types(V)]
#[verifier::reject_recursive_types(S)]
pub struct ExLruCache<K, V, S>(lru::LruCache<K, V, S>);

/// The hasher that a cache uses unless it is given another.
#[verifier::external_type_specification]
#[verifier::external_body]
pub struct ExDefaultHasher(lru::DefaultHasher);

/// The entries of a cache, from the most to the least recently used.
pub uninterp spec fn recency(cache: LruCache<[u8; 32], Instant>) -> Seq<([u8; 32], Instant)>;

/// The number of entries that a cache was made to hold at most.
pub uninterp spec fn capacity(cache: LruCache<[u8; 32], Instant>) -> nat;

/// Whether some entry has this key.
pub open spec fn holds(entries: Seq<([u8; 32], Instant)>, key: [u8; 32]) -> bool {
    exists|i: int| 0 <= i < entries.len() && (#[trigger] entries[i]).0 == key
}

/// The value beside this key.
pub open spec fn value_of(entries: Seq<([u8; 32], Instant)>, key: [u8; 32]) -> Instant {
    entries[choose|i: int| 0 <= i < entries.len() && (#[trigger] entries[i]).0 == key].1
}

/// Whether an entry has another key.
pub open spec fn other_key(key: [u8; 32]) -> spec_fn(([u8; 32], Instant)) -> bool {
    |e: ([u8; 32], Instant)| e.0 != key
}

/// The entries with another key, in their order.
pub open spec fn without(entries: Seq<([u8; 32], Instant)>, key: [u8; 32]) -> Seq<([u8; 32], Instant)> {
    entries.filter(other_key(key))
}

/// The entries with this one put in front.
pub open spec fn in_front(entries: Seq<([u8; 32], Instant)>, key: [u8; 32], value: Instant) -> Seq<([u8; 32], Instant)> {
    seq![(key, value)] + entries
}

/// No key occurs twice.
pub open spec fn distinct(entries: Seq<([u8; 32], Instant)>) -> bool {
    forall|i: int, j: int| 0 <= i < j < entries.len() ==> (#[trigger] entries[i]).0 != (#[trigger] entries[j]).0
}

pub proof fn lemma_without_absent(entries: Seq<([u8; 32], Instant)>, key: [u8; 32])
    requires
        !holds(entries, key),
    ensures
        without(entries, key) == entries,
    decreases entries.len(),
{
    reveal(Seq::filter);
    if entries.len() > 0 {
        let rest = entries.drop_last();
        assert forall|i: int| 0 <= i < rest.len() implies (#[trigger] rest[i]).0 != key by {
            assert(rest[i] == entries[i]);
        }
        lemma_without_absent(rest, key);
        assert(entries[entries.len() - 1].0 != key);
        assert(entries =~= rest.push(entries.last()));
    }
}

pub proof fn lemma_without_at(entries: Seq<([u8; 32], Instant)>, i: int)
    requires
        distinct(entries),
        0 <= i < entries.len(),
    ensures
        without(entries, entries[i].0) == entries.remove(i),
        value_of(entries, entries[i].0) == entries[i].1,
        holds(entries, entries[i].0),
{
    let key = entries[i].0;
    let pred = other_key(key);
    let a = entries.take(i);
    let m = seq![entries[i]];
    let b = entries.skip(i + 1);
    assert(entries =~= a + m + b);
    Seq::filter_distributes_over_add(a + m, b, pred);
    Seq::filter_distributes_over_add(a, m, pred);
    assert(!holds(a, key)) by {
        assert forall|j: int| 0 <= j < a.len() implies (#[trigger] a[j]).0 != key by {
            assert(a[j] == entries[j]);
        }
    }
    assert(!holds(b, key)) by {
        assert forall|j: int| 0 <= j < b.len() implies (#[trigger] b[j]).0 != key by {
            assert(b[j] == entries[j + i + 1]);
        }
    }
    lemma_without_absent(a, key);
    lemma_without_absent(b, key);
    assert(m.filter(pred) =~= Seq::empty()) by {
        reveal_with_fuel(Seq::filter, 2);
        assert(m.drop_last() =~= Seq::empty());
    }
    assert(without(entries, key) =~= a + b);
    assert(entries.remove(i) =~= a + b);
}

pub proof fn lemma_filter_members(entries: Seq<([u8; 32], Instant)>, pred: spec_fn(([u8; 32], Instant)) -> bool)
    ensures
        forall|e: ([u8; 32], Instant)|
            #[trigger] entries.filter(pred).contains(e) <==> entries.contains(e) && pred(e),
    decreases entries.len(),
{
    reveal(Seq::filter);
    if entries.len() > 0 {
        let rest = entries.drop_last();
        let last = entries.last();
        lemma_filter_members(rest, pred);
        assert(entries =~= rest.push(last));
        assert forall|e: ([u8; 32], Instant)|
            #[trigger] entries.filter(pred).contains(e) <==> entries.contains(e) && pred(e) by {
            let kept = rest.filter(pred);
            assert(rest.push(last).contains(e) <==> rest.contains(e) || e == last) by {
                if rest.contains(e) {
                    let i = rest.index_of(e);
                    assert(rest.push(last)[i] == e);
                }
                assert(rest.push(last)[rest.len() as int] == last);
            }
            assert(kept.push(last).contains(e) <==> kept.contains(e) || e == last) by {
                if kept.contains(e) {
                    let i = kept.index_of(e);
                    assert(kept.push(last)[i] == e);
                }
                assert(kept.push(last)[kept.len() as int] == last);
            }
        }
    }
}

pub proof fn lemma_holds(entries: Seq<([u8; 32], Instant)>, key: [u8; 32])
    ensures
        holds(entries, key) <==> exists|t: Instant| entries.contains((key, t)),
{
    if holds(entries, key) {
        let i = choose|i: int| 0 <= i < entries.len() && (#[trigger] entries[i]).0 == key;
        assert(entries[i] == (key, entries[i].1));
        assert(entries.contains((key, entries[i].1)));
    }
}

pub proof fn lemma_filter_distinct(entries: Seq<([u8; 32], Instant)>, pred: spec_fn(([u8; 32], Instant)) -> bool)
    requires
        distinct(entries),
    ensures
        distinct(entries.filter(pred)),
        entries.filter(pred).len() <= entries.len(),
        forall|k: [u8; 32]| #[trigger] holds(entries.filter(pred), k) ==> holds(entries, k),
    decreases entries.len(),
{
    reveal(Seq::filter);
    if entries.len() > 0 {
        let rest = entries.drop_last();
        let last = entries.last();
        assert forall|i: int, j: int| 0 <= i < j < rest.len() implies (#[trigger] rest[i]).0 != (#[trigger] rest[j]).0 by {
            assert(rest[i] == entries[i] && rest[j] == entries[j]);
        }
        lemma_filter_distinct(rest, pred);
        let kept = rest.filter(pred);
        assert forall|k: [u8; 32]| #[trigger] holds(kept, k) implies holds(entries, k) by {
            assert(holds(rest, k));
            let i = choose|i: int| 0 <= i < rest.len() && (#[trigger] rest[i]).0 == k;
            assert(entries[i].0 == k);
        }
        assert(!holds(rest, last.0)) by {
            if holds(rest, last.0) {
                let i = choose|i: int| 0 <= i < rest.len() && (#[trigger] rest[i]).0 == last.0;
                assert(entries[i].0 == entries[entries.len() - 1].0);
            }
        }
        if pred(last) {
            let out = kept.push(last);
            assert forall|i: int, j: int| 0 <= i < j < out.len() implies (#[trigger] out[i]).0 != (#[trigger] out[j]).0 by {
                if j == kept.len() {
                    if out[i].0 == last.0 {
                        assert(kept[i].0 == last.0);
                        assert(holds(kept, last.0));
                    }
                } else {
                    assert(out[i] == kept[i] && out[j] == kept[j]);
                }
            }
            assert forall|k: [u8; 32]| #[trigger] holds(out, k) implies holds(entries, k) by {
                let i = choose|i: int| 0 <= i < out.len() && (#[trigger] out[i]).0 == k;
                if i < kept.len() {
                    assert(kept[i].0 == k);
                    assert(holds(kept, k));
                } else {
                    assert(entries[entries.len() - 1].0 == k);
                }
            }
        }
    }
}

/// `LruCache::new`: an empty cache for at most `cap` entries. It reserves a hash table for all of
/// them at once and panics where that size overflows, which no `cap` admitted here does.
#[verifier::external_body]
pub(crate) fn lru_new(cap: usize) -> (r: LruCache<[u8; 32], Instant>)
    requires
        0 < cap <= usize::MAX / 128,
    ensures
        recency(r) == Seq::<([u8; 32], Instant)>::empty(),
        capacity(r) == cap,
{
    LruCache::new(core::num::NonZeroUsize::new(cap).unwrap())
}

/// `LruCache::push`: the entry comes to the front. An earlier entry with the key is replaced and
/// handed back; else a full cache gives up its least recently used entry and hands that back.
#[verifier::external_body]
pub(crate) fn lru_push(cache: &mut LruCache<[u8; 32], Instant>, key: [u8; 32], value: Instant) -> (r: Option<
    ([u8; 32], Instant),
>)
    ensures
        capacity(*final(cache)) == capacity(*old(cache)),
        holds(recency(*old(cache)), key) ==> {
            &&& r == Some((key, value_of(recency(*old(cache)), key)))
            &&& recency(*final(cache)) == in_front(without(recency(*old(cache)), key), key, value)
        },
        !holds(recency(*old(cache)), key) && recency(*old(cache)).len() == capacity(*old(cache)) ==> {
            &&& r == Some(recency(*old(cache)).last())
            &&& recency(*final(cache)) == in_front(recency(*old(cache)).drop_last(), key, value)
        },
        !holds(recency(*old(cache)), key) && recency(*old(cache)).len() != capacity(*old(cache)) ==> {
            &&& r is None
            &&& recency(*final(cache)) == in_front(recency(*old(cache)), key, value)
        },
{
    cache.push(key, value)
}

/// `LruCache::get`: the value beside the key, whose entry comes to the front.
#[verifier::external_body]
pub(crate) fn lru_get(cache: &mut LruCache<[u8; 32], Instant>, key: &[u8; 32]) -> (r: Option<Instant>)
    ensures
        capacity(*final(cache)) == capacity(*old(cache)),
        holds(recency(*old(cache)), *key) ==> {
            &&& r == Some(value_of(recency(*old(cache)), *key))
            &&& recency(*final(cache)) == in_front(
                without(recency(*old(cache)), *key),
                *key,
                value_of(recency(*old(cache)), *key),
            )
        },
        !holds(recency(*old(cache)), *key) ==> {
            &&& r is None
            &&& recency(*final(cache)) == recency(*old(cache))
        },
{
    cache.get(key).copied()
}

/// `LruCache::pop`: takes the entry with the key out and hands its value back.
#[verifier::external_body]
pub(crate) fn lru_pop(cache: &mut LruCache<[u8; 32], Instant>, key: &[u8; 32]) -> (r: Option<Instant>)
    ensures
        capacity(*final(cache)) == capacity(*old(cache)),
        recency(*final(cache)) == without(recency(*old(cache)), *key),
        r == (if holds(recency(*old(cache)), *key) {
            Some(value_of(recency(*old(cache)), *key))
        } else {
            None
        }),
{
    cache.pop(key)
}

/// `LruCache::pop_lru`: takes the least recently used entry out and hands it back.
#[verifier::external_body]
pub(crate) fn lru_pop_lru(cache: &mut LruCache<[u8; 32], Instant>) -> (r: Option<([u8; 32], Instant)>)
    ensures
        capacity(*final(cache)) == capacity(*old(cache)),
        recency(*old(cache)).len() > 0 ==> {
            &&& r == Some(recency(*old(cache)).last())
            &&& recency(*final(cache)) == recency(*old(cache)).drop_last()
        },
        recency(*old(cache)).len() == 0 ==> {
            &&& r is None
            &&& recency(*final(cache)) == recency(*old(cache))
        },
{
    cache.pop_lru()
}

/// `LruCache::contains`: whether an entry has the key; no entry moves.
#[verifier::external_body]
pub(crate) fn lru_contains(cache: &LruCache<[u8; 32], Instant>, key: &[u8; 32]) -> (r: bool)
    ensures
        r == holds(recency(*cache), *key),
{
    cache.contains(key)
}

/// `LruCache::len`: the number of entries.
#[verifier::external_body]
pub(crate) fn lru_len(cache: &LruCache<[u8; 32], Instant>) -> (r: usize)
    ensures
        r == recency(*cache).len(),
{
    cache.len()
}

/// `LruCache::iter`: every entry, from the most to the least recently used; no entry moves.
#[verifier::external_body]
pub(crate) fn lru_entries(cache: &LruCache<[u8; 32], Instant>) -> (r: Vec<([u8; 32], Instant)>)
    ensures
        r@ == recency(*cache),
{
    cache.iter().map(|entry| (*entry.0, *entry.1)).collect()
}

} // verus!
