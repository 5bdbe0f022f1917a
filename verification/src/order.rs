//! The order of identifiers: byte by byte, the first difference decides.

use vstd::prelude::*;

use crate::ids::Identifier;

verus! {

/// The first difference makes `a` smaller.
pub open spec fn bytes_before(a: [u8; 32], b: [u8; 32]) -> bool {
    exists|i: int| #![trigger a[i]] 0 <= i < 32 && a[i] < b[i] && (forall|j: int| 0 <= j < i ==> a[j] == b[j])
}

/// Whether one identifier comes before another.
pub fn is_before(a: &[u8; 32], b: &[u8; 32]) -> (r: bool)
    ensures
        r == bytes_before(*a, *b),
{
    let mut i: usize = 0;
    while i < 32
        invariant
            i <= 32,
            forall|j: int| 0 <= j < i ==> a[j] == b[j],
        decreases 32 - i,
    {
        if a[i] < b[i] {
            assert(bytes_before(*a, *b)) by {
                assert(a[i as int] < b[i as int]);
            }
            return true;
        }
        if a[i] > b[i] {
            assert(!bytes_before(*a, *b)) by {
                if bytes_before(*a, *b) {
                    let k = choose|k: int|
                        #![trigger a[k]]
                        0 <= k < 32 && a[k] < b[k] && (forall|j: int| 0 <= j < k ==> a[j] == b[j]);
                    if k > i {
                        assert(a[i as int] == b[i as int]);
                    }
                }
            }
            return false;
        }
        i = i + 1;
    }
    false
}

/// The order of identifiers is strict and total.
pub proof fn bytes_before_is_total(a: [u8; 32], b: [u8; 32])
    ensures
        bytes_before(a, b) || bytes_before(b, a) || a == b,
        !(bytes_before(a, b) && bytes_before(b, a)),
        !bytes_before(a, a),
{
    if a != b {
        assert(!(a =~= b));
        let k = choose|k: int| 0 <= k < 32 && a[k] != b[k];
        lemma_first_difference(a, b, k);
    }
    if bytes_before(a, b) && bytes_before(b, a) {
        let i = choose|i: int|
            #![trigger a[i]]
            0 <= i < 32 && a[i] < b[i] && (forall|j: int| 0 <= j < i ==> a[j] == b[j]);
        let k = choose|k: int|
            #![trigger b[k]]
            0 <= k < 32 && b[k] < a[k] && (forall|j: int| 0 <= j < k ==> b[j] == a[j]);
        if i < k {
            assert(b[i] == a[i]);
        } else if k < i {
            assert(a[k] == b[k]);
        }
    }
}

proof fn lemma_first_difference(a: [u8; 32], b: [u8; 32], k: int)
    requires
        0 <= k < 32,
        a[k] != b[k],
    ensures
        bytes_before(a, b) || bytes_before(b, a),
    decreases k,
{
    if exists|j: int| 0 <= j < k && a[j] != b[j] {
        let j = choose|j: int| 0 <= j < k && a[j] != b[j];
        lemma_first_difference(a, b, j);
    } else {
        assert(forall|j: int| 0 <= j < k ==> a[j] == b[j]);
        if a[k] < b[k] {
            assert(bytes_before(a, b));
        } else {
            assert(b[k] < a[k]);
            assert(bytes_before(b, a));
        }
    }
}

/// The order of identifiers carries over.
pub proof fn bytes_before_carries_over(a: [u8; 32], b: [u8; 32], c: [u8; 32])
    requires
        bytes_before(a, b),
        bytes_before(b, c),
    ensures
        bytes_before(a, c),
{
    let i = choose|i: int|
        #![trigger a[i]]
        0 <= i < 32 && a[i] < b[i] && (forall|j: int| 0 <= j < i ==> a[j] == b[j]);
    let k = choose|k: int|
        #![trigger b[k]]
        0 <= k < 32 && b[k] < c[k] && (forall|j: int| 0 <= j < k ==> b[j] == c[j]);
    let m = if i < k { i } else { k };
    assert(a[m] < c[m]);
    assert forall|j: int| 0 <= j < m implies a[j] == c[j] by {
        assert(a[j] == b[j] && b[j] == c[j]);
    }
}

/// Two identifiers, of which the first decides and then the second.
pub open spec fn pair_before(a: ([u8; 32], [u8; 32]), b: ([u8; 32], [u8; 32])) -> bool {
    bytes_before(a.0, b.0) || (a.0 == b.0 && bytes_before(a.1, b.1))
}

/// Whether one pair of identifiers comes before another.
pub fn is_pair_before(a: &([u8; 32], [u8; 32]), b: &([u8; 32], [u8; 32])) -> (r: bool)
    ensures
        r == pair_before(*a, *b),
{
    is_before(&a.0, &b.0) || (a.0.same(&b.0) && is_before(&a.1, &b.1))
}

pub proof fn pair_before_is_total(a: ([u8; 32], [u8; 32]), b: ([u8; 32], [u8; 32]))
    ensures
        pair_before(a, b) || pair_before(b, a) || a == b,
        !(pair_before(a, b) && pair_before(b, a)),
        !pair_before(a, a),
{
    bytes_before_is_total(a.0, b.0);
    bytes_before_is_total(a.1, b.1);
    bytes_before_is_total(a.0, a.0);
    bytes_before_is_total(a.1, a.1);
}

pub proof fn pair_before_carries_over(
    a: ([u8; 32], [u8; 32]),
    b: ([u8; 32], [u8; 32]),
    c: ([u8; 32], [u8; 32]),
)
    requires
        pair_before(a, b),
        pair_before(b, c),
    ensures
        pair_before(a, c),
{
    if bytes_before(a.0, b.0) && bytes_before(b.0, c.0) {
        bytes_before_carries_over(a.0, b.0, c.0);
    }
    if bytes_before(a.1, b.1) && bytes_before(b.1, c.1) {
        bytes_before_carries_over(a.1, b.1, c.1);
    }
}

/// Pairs in ascending order, none twice.
pub open spec fn ascending(keys: Seq<([u8; 32], [u8; 32])>) -> bool {
    forall|i: int, j: int| 0 <= i < j < keys.len() ==> pair_before(#[trigger] keys[i], #[trigger] keys[j])
}

/// Where a new pair belongs among ascending ones.
pub fn place_of(keys: &Vec<([u8; 32], [u8; 32])>, key: &([u8; 32], [u8; 32])) -> (r: usize)
    requires
        ascending(keys@),
        !keys@.contains(*key),
    ensures
        r <= keys@.len(),
        ascending(keys@.insert(r as int, *key)),
{
    let mut at: usize = 0;
    while at < keys.len() && is_pair_before(&keys[at], key)
        invariant
            at <= keys@.len(),
            forall|i: int| 0 <= i < at ==> pair_before(#[trigger] keys@[i], *key),
        decreases keys@.len() - at,
    {
        at = at + 1;
    }
    proof {
        let new = keys@.insert(at as int, *key);
        if at < keys@.len() {
            pair_before_is_total(keys@[at as int], *key);
            assert(keys@[at as int] != *key);
        }
        assert forall|i: int, j: int| 0 <= i < j < new.len() implies pair_before(#[trigger] new[i], #[trigger] new[j]) by {
            if j < at {
                assert(new[i] == keys@[i] && new[j] == keys@[j]);
            } else if j == at {
                assert(new[i] == keys@[i]);
            } else if i == at {
                assert(new[j] == keys@[j - 1]);
                if j - 1 > at {
                    pair_before_carries_over(*key, keys@[at as int], keys@[j - 1]);
                }
            } else if i < at {
                assert(new[i] == keys@[i] && new[j] == keys@[j - 1]);
            } else {
                assert(new[i] == keys@[i - 1] && new[j] == keys@[j - 1]);
            }
        }
    }
    at
}

/// The pairs in ascending order.
pub fn in_order(keys: &Vec<([u8; 32], [u8; 32])>) -> (r: Vec<([u8; 32], [u8; 32])>)
    requires
        keys@.no_duplicates(),
    ensures
        ascending(r@),
        r@.to_set() == keys@.to_set(),
        r@.len() == keys@.len(),
{
    let mut r: Vec<([u8; 32], [u8; 32])> = Vec::new();
    let mut i: usize = 0;
    assert(r@.to_set() =~= keys@.take(0).to_set());
    while i < keys.len()
        invariant
            i <= keys@.len(),
            keys@.no_duplicates(),
            ascending(r@),
            r@.len() == i,
            r@.to_set() == keys@.take(i as int).to_set(),
        decreases keys@.len() - i,
    {
        let key = keys[i];
        let ghost before = r@;
        proof {
            assert(!before.contains(key)) by {
                if before.contains(key) {
                    assert(before.to_set().contains(key));
                    let j = keys@.take(i as int).index_of(key);
                    assert(keys@[j] == key);
                }
            }
        }
        let at: usize = place_of(&r, &key);
        r.insert(at, key);
        proof {
            lemma_insert_members(before, at as int, key);
            assert(keys@.take(i + 1) =~= keys@.take(i as int).insert(i as int, key));
            lemma_insert_members(keys@.take(i as int), i as int, key);
            assert(r@.to_set() =~= keys@.take(i + 1).to_set());
        }
        i = i + 1;
    }
    assert(keys@.take(keys@.len() as int) =~= keys@);
    r
}

pub proof fn lemma_insert_members<A>(s: Seq<A>, at: int, a: A)
    requires
        0 <= at <= s.len(),
    ensures
        s.insert(at, a).to_set() == s.to_set().insert(a),
{
    let new = s.insert(at, a);
    assert forall|x: A| new.to_set().contains(x) == s.to_set().insert(a).contains(x) by {
        if new.contains(x) {
            let i = new.index_of(x);
            if i < at {
                assert(s[i] == x);
            } else if i > at {
                assert(s[i - 1] == x);
            }
        }
        if s.contains(x) {
            let i = s.index_of(x);
            if i < at {
                assert(new[i] == x);
            } else {
                assert(new[i + 1] == x);
            }
        }
        assert(new[at] == a);
    }
    assert(new.to_set() =~= s.to_set().insert(a));
}

/// Identifiers in ascending order, none twice.
pub open spec fn ascending_ids(ids: Seq<[u8; 32]>) -> bool {
    forall|i: int, j: int| 0 <= i < j < ids.len() ==> bytes_before(#[trigger] ids[i], #[trigger] ids[j])
}

/// The identifiers in ascending order.
pub fn ids_in_order(ids: &Vec<[u8; 32]>) -> (r: Vec<[u8; 32]>)
    requires
        ids@.no_duplicates(),
    ensures
        ascending_ids(r@),
        r@.to_set() == ids@.to_set(),
        r@.len() == ids@.len(),
{
    let zero: [u8; 32] = [0u8; 32];
    let mut pairs: Vec<([u8; 32], [u8; 32])> = Vec::new();
    let mut i: usize = 0;
    while i < ids.len()
        invariant
            i <= ids@.len(),
            pairs@.len() == i,
            forall|j: int| 0 <= j < i ==> #[trigger] pairs@[j] == (ids@[j], zero),
        decreases ids@.len() - i,
    {
        pairs.push((ids[i], zero));
        i = i + 1;
    }
    proof {
        assert forall|a: int, b: int| 0 <= a < b < pairs@.len() implies pairs@[a] != pairs@[b] by {
            assert(ids@[a] != ids@[b]);
        }
    }
    let ordered = in_order(&pairs);
    let mut r: Vec<[u8; 32]> = Vec::new();
    let mut n: usize = 0;
    while n < ordered.len()
        invariant
            n <= ordered@.len(),
            r@.len() == n,
            forall|j: int| 0 <= j < n ==> #[trigger] r@[j] == ordered@[j].0,
        decreases ordered@.len() - n,
    {
        r.push(ordered[n].0);
        n = n + 1;
    }
    proof {
        assert forall|j: int| 0 <= j < ordered@.len() implies (#[trigger] ordered@[j]).1 == zero && ids@.contains(
            ordered@[j].0,
        ) by {
            assert(ordered@.to_set().contains(ordered@[j]));
            assert(pairs@.contains(ordered@[j]));
            let k = pairs@.index_of(ordered@[j]);
            assert(pairs@[k] == (ids@[k], zero));
        }
        assert forall|a: int, b: int| 0 <= a < b < r@.len() implies bytes_before(#[trigger] r@[a], #[trigger] r@[b]) by {
            assert(pair_before(ordered@[a], ordered@[b]));
            bytes_before_is_total(zero, zero);
        }
        assert forall|x: [u8; 32]| r@.to_set().contains(x) == ids@.to_set().contains(x) by {
            if r@.contains(x) {
                let j = r@.index_of(x);
                assert(ids@.contains(ordered@[j].0));
            }
            if ids@.contains(x) {
                let k = ids@.index_of(x);
                assert(pairs@[k] == (x, zero));
                assert(pairs@.to_set().contains((x, zero)));
                assert(ordered@.contains((x, zero)));
                let j = ordered@.index_of((x, zero));
                assert(r@[j] == x);
            }
        }
        assert(r@.to_set() =~= ids@.to_set());
    }
    r
}

/// A sequence has the members of another that stand at these places, in their order.
pub open spec fn picks<A>(at: Seq<int>, part: Seq<A>, whole: Seq<A>) -> bool {
    &&& at.len() == part.len()
    &&& forall|j: int| 0 <= j < at.len() ==> 0 <= #[trigger] at[j] < whole.len() && whole[at[j]] == part[j]
    &&& forall|i: int, j: int| 0 <= i < j < at.len() ==> #[trigger] at[i] < #[trigger] at[j]
}

/// Where the members of a sequence stand that a filter keeps: in their order, and none left out.
pub proof fn lemma_filter_positions<A>(s: Seq<A>, pred: spec_fn(A) -> bool) -> (at: Seq<int>)
    ensures
        picks(at, s.filter(pred), s),
        forall|j: int| 0 <= j < at.len() ==> pred(s[#[trigger] at[j]]),
        forall|i: int| 0 <= i < s.len() && pred(#[trigger] s[i]) ==> at.contains(i),
    decreases s.len(),
{
    reveal(Seq::filter);
    if s.len() == 0 {
        Seq::empty()
    } else {
        let before = lemma_filter_positions(s.drop_last(), pred);
        let last = s.len() - 1;
        assert forall|i: int| 0 <= i < last && pred(#[trigger] s[i]) implies before.contains(i) by {
            assert(s.drop_last()[i] == s[i]);
        }
        if pred(s.last()) {
            let at = before.push(last);
            assert forall|i: int| 0 <= i < s.len() && pred(#[trigger] s[i]) implies at.contains(i) by {
                if i < last {
                    let j = before.index_of(i);
                    assert(at[j] == i);
                } else {
                    assert(at[before.len() as int] == i);
                }
            }
            at
        } else {
            before
        }
    }
}

} // verus!
