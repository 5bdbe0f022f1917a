//! Sets and maps of identifiers, kept as duplicate-free vectors.

use vstd::prelude::*;

use crate::ids::Identifier;

verus! {

/// A set of identifiers.
pub struct IdSet<K> {
    items: Vec<K>,
}

impl<K> View for IdSet<K> {
    type V = Set<K>;

    closed spec fn view(&self) -> Set<K> {
        self.items@.to_set()
    }
}

impl<K: Identifier> IdSet<K> {
    /// No identifier is held twice.
    pub closed spec fn wf(&self) -> bool {
        self.items@.no_duplicates()
    }

    /// The members in the order in which `to_vec` lists them.
    pub closed spec fn listed(&self) -> Seq<K> {
        self.items@
    }

    pub fn new() -> (r: Self)
        ensures
            r.wf(),
            r@ == Set::<K>::empty(),
    {
        let r = IdSet { items: Vec::new() };
        assert(r@ =~= Set::<K>::empty());
        r
    }

    /// The set of the listed members.
    pub fn from_list(list: &Vec<K>) -> (r: Self)
        ensures
            r.wf(),
            r@ == list@.to_set(),
    {
        let mut r = IdSet::new();
        let mut i: usize = 0;
        assert(r@ =~= list@.take(0).to_set());
        while i < list.len()
            invariant
                i <= list@.len(),
                r.wf(),
                r@ == list@.take(i as int).to_set(),
            decreases list@.len() - i,
        {
            r.insert(list[i]);
            proof {
                assert(list@.take(i + 1) =~= list@.take(i as int).insert(i as int, list@[i as int]));
                crate::order::lemma_insert_members(list@.take(i as int), i as int, list@[i as int]);
            }
            i = i + 1;
        }
        assert(list@.take(list@.len() as int) =~= list@);
        r
    }

    fn position(&self, key: &K) -> (r: Option<usize>)
        ensures
            match r {
                Some(i) => i < self.items@.len() && self.items@[i as int] == *key,
                None => !self@.contains(*key),
            },
            r is Some ==> self@.contains(*key),
    {
        let mut i: usize = 0;
        while i < self.items.len()
            invariant
                i <= self.items@.len(),
                forall|j: int| 0 <= j < i ==> self.items@[j] != *key,
            decreases self.items@.len() - i,
        {
            if self.items[i].same(key) {
                return Some(i);
            }
            i = i + 1;
        }
        None
    }

    pub fn contains(&self, key: &K) -> (r: bool)
        ensures
            r == self@.contains(*key),
    {
        self.position(key).is_some()
    }

    /// Adds a member; says whether it is new.
    pub fn insert(&mut self, key: K) -> (r: bool)
        requires
            old(self).wf(),
        ensures
            final(self).wf(),
            final(self)@ == old(self)@.insert(key),
            r == !old(self)@.contains(key),
            r ==> final(self).listed() == old(self).listed().push(key),
            !r ==> *final(self) == *old(self),
    {
        if self.contains(&key) {
            assert(self@ =~= old(self)@.insert(key));
            false
        } else {
            self.items.push(key);
            assert(self@ =~= old(self)@.insert(key)) by {
                assert forall|k: K| self@.contains(k) == old(self)@.insert(key).contains(k) by {
                    if old(self)@.contains(k) {
                        let i = old(self).items@.index_of(k);
                        assert(self.items@[i] == k);
                    }
                    if k == key {
                        assert(self.items@[old(self).items@.len() as int] == k);
                    }
                }
            }
            true
        }
    }

    /// Takes a member out; says whether it was there.
    pub fn remove(&mut self, key: &K) -> (r: bool)
        requires
            old(self).wf(),
        ensures
            final(self).wf(),
            final(self)@ == old(self)@.remove(*key),
            r == old(self)@.contains(*key),
            !r ==> *final(self) == *old(self),
    {
        match self.position(key) {
            Some(i) => {
                self.items.remove(i);
                proof {
                    let before = old(self).items@;
                    let after = self.items@;
                    assert(after == before.remove(i as int));
                    assert forall|k: K| self@.contains(k) == old(self)@.remove(*key).contains(k) by {
                        if self@.contains(k) {
                            let j = after.index_of(k);
                            let m = if j < i { j } else { j + 1 };
                            assert(before[m] == k);
                        }
                        if old(self)@.contains(k) && k != *key {
                            let m = before.index_of(k);
                            let j = if m < i { m } else { m - 1 };
                            assert(after[j] == k);
                        }
                    }
                    assert(self@ =~= old(self)@.remove(*key));
                }
                true
            },
            None => {
                assert(self@ =~= old(self)@.remove(*key));
                false
            },
        }
    }

    pub fn len(&self) -> (r: usize)
        requires
            self.wf(),
        ensures
            r == self@.len(),
            r == self.listed().len(),
    {
        proof {
            self.items@.unique_seq_to_set();
        }
        self.items.len()
    }

    pub fn is_empty(&self) -> (r: bool)
        requires
            self.wf(),
        ensures
            r == (self@ == Set::<K>::empty()),
            r == (self@.len() == 0),
    {
        proof {
            self.items@.unique_seq_to_set();
            if self.items@.len() == 0 {
                assert(self@ =~= Set::<K>::empty());
            } else {
                assert(self@.contains(self.items@[0]));
            }
        }
        self.items.len() == 0
    }

    /// Takes out every member that is not in the other set; says how many.
    pub fn retain_in(&mut self, other: &IdSet<K>) -> (r: usize)
        requires
            old(self).wf(),
            other.wf(),
        ensures
            final(self).wf(),
            final(self)@ == old(self)@.intersect(other@),
            r == old(self)@.len() - final(self)@.len(),
    {
        let members = self.to_vec();
        let ghost all = self@;
        let mut removed: usize = 0;
        let mut i: usize = 0;
        proof {
            self.lemma_listed();
        }
        while i < members.len()
            invariant
                i <= members@.len(),
                members@.no_duplicates(),
                members@.to_set() == all,
                all == old(self)@,
                self.wf(),
                self@.finite(),
                removed <= i,
                removed == all.len() - self@.len(),
                self@.subset_of(all),
                forall|j: int| 0 <= j < i ==> self@.contains(#[trigger] members@[j]) == other@.contains(members@[j]),
                forall|j: int| i <= j < members@.len() ==> self@.contains(#[trigger] members@[j]),
            decreases members@.len() - i,
        {
            let member = members[i];
            if !other.contains(&member) {
                self.remove(&member);
                removed = removed + 1;
            }
            i = i + 1;
        }
        proof {
            assert forall|k: K| self@.contains(k) == all.intersect(other@).contains(k) by {
                if all.contains(k) {
                    assert(members@.to_set().contains(k));
                    assert(members@[members@.index_of(k)] == k);
                }
            }
            assert(self@ =~= all.intersect(other@));
        }
        removed
    }

    /// The members, each once.
    pub fn to_vec(&self) -> (r: Vec<K>)
        requires
            self.wf(),
        ensures
            r@ == self.listed(),
            r@.no_duplicates(),
            r@.to_set() == self@,
            r@.len() == self@.len(),
    {
        proof {
            self.items@.unique_seq_to_set();
        }
        let mut r: Vec<K> = Vec::new();
        let mut i: usize = 0;
        while i < self.items.len()
            invariant
                i <= self.items@.len(),
                r@ == self.items@.subrange(0, i as int),
            decreases self.items@.len() - i,
        {
            r.push(self.items[i]);
            assert(r@ =~= self.items@.subrange(0, i + 1));
            i = i + 1;
        }
        assert(r@ =~= self.items@);
        r
    }

    pub proof fn lemma_listed(&self)
        requires
            self.wf(),
        ensures
            self.listed().no_duplicates(),
            self.listed().to_set() == self@,
            self.listed().len() == self@.len(),
            self@.finite(),
    {
        self.items@.unique_seq_to_set();
    }
}

/// A map from identifiers to values.
pub struct IdMap<K, V> {
    names: Vec<K>,
    values: Vec<V>,
}

impl<K, V> View for IdMap<K, V> {
    type V = Map<K, V>;

    closed spec fn view(&self) -> Map<K, V> {
        Map::new(|k: K| self.names@.contains(k), |k: K| self.values@[self.names@.index_of(k)])
    }
}

impl<K: Identifier, V> IdMap<K, V> {
    /// Every key is held once, beside its value.
    pub closed spec fn wf(&self) -> bool {
        &&& self.names@.no_duplicates()
        &&& self.names@.len() == self.values@.len()
    }

    /// The keys in the order in which `keys` lists them.
    pub closed spec fn listed(&self) -> Seq<K> {
        self.names@
    }

    pub fn new() -> (r: Self)
        ensures
            r.wf(),
            r@ == Map::<K, V>::empty(),
    {
        let r = IdMap { names: Vec::new(), values: Vec::new() };
        assert(r@ =~= Map::<K, V>::empty());
        r
    }

    fn position(&self, key: &K) -> (r: Option<usize>)
        requires
            self.wf(),
        ensures
            match r {
                Some(i) => {
                    &&& i < self.names@.len()
                    &&& self.names@[i as int] == *key
                    &&& self@.dom().contains(*key)
                    &&& self@[*key] == self.values@[i as int]
                },
                None => !self@.dom().contains(*key),
            },
    {
        let mut i: usize = 0;
        while i < self.names.len()
            invariant
                i <= self.names@.len(),
                forall|j: int| 0 <= j < i ==> self.names@[j] != *key,
                self.wf(),
            decreases self.names@.len() - i,
        {
            if self.names[i].same(key) {
                assert(self.names@.index_of(*key) == i);
                return Some(i);
            }
            i = i + 1;
        }
        None
    }

    pub fn contains_key(&self, key: &K) -> (r: bool)
        requires
            self.wf(),
        ensures
            r == self@.dom().contains(*key),
    {
        self.position(key).is_some()
    }

    pub fn get(&self, key: &K) -> (r: Option<&V>)
        requires
            self.wf(),
        ensures
            match r {
                Some(v) => self@.dom().contains(*key) && *v == self@[*key],
                None => !self@.dom().contains(*key),
            },
    {
        match self.position(key) {
            Some(i) => Some(&self.values[i]),
            None => None,
        }
    }

    /// The value beside a key, to be changed in place.
    pub fn get_mut(&mut self, key: &K) -> (r: Option<&mut V>)
        requires
            old(self).wf(),
        ensures
            final(self).wf(),
            final(self).listed() == old(self).listed(),
            match r {
                Some(v) => {
                    &&& old(self)@.dom().contains(*key)
                    &&& *v == old(self)@[*key]
                    &&& final(self)@ == old(self)@.insert(*key, *final(v))
                },
                None => !old(self)@.dom().contains(*key) && *final(self) == *old(self),
            },
    {
        match self.position(key) {
            Some(i) => {
                proof {
                    let names = self.names@;
                    let values = self.values@;
                    assert forall|k: K| names.contains(k) && k != *key implies names.index_of(k) != i by {
                        assert(names[names.index_of(k)] == k);
                    }
                    assert(names.index_of(*key) == i);
                    assert forall|changed: Self, value: V|
                        changed.names@ == names && changed.values@ == #[trigger] values.update(
                            i as int,
                            value,
                        ) implies #[trigger] changed.view() == self@.insert(*key, value) by {
                        assert(changed@ =~= self@.insert(*key, value));
                    }
                }
                let v = &mut self.values[i];
                Some(v)
            },
            None => None,
        }
    }

    /// Binds a key to a value in place of any earlier one; says whether the key is new.
    pub fn insert(&mut self, key: K, value: V) -> (r: bool)
        requires
            old(self).wf(),
        ensures
            final(self).wf(),
            final(self)@ == old(self)@.insert(key, value),
            r == !old(self)@.dom().contains(key),
            final(self).listed() == if r { old(self).listed().push(key) } else { old(self).listed() },
    {
        match self.position(&key) {
            Some(i) => {
                self.values.set(i, value);
                proof {
                    let names = self.names@;
                    assert(names == old(self).names@);
                    assert forall|k: K| names.contains(k) && k != key implies names.index_of(k) != i by {
                        assert(names[names.index_of(k)] == k);
                    }
                    assert(names.index_of(key) == i);
                    assert(self@ =~= old(self)@.insert(key, value));
                }
                false
            },
            None => {
                self.names.push(key);
                self.values.push(value);
                proof {
                    let before = old(self).names@;
                    let after = self.names@;
                    assert(after == before.push(key));
                    assert(after[before.len() as int] == key);
                    assert(after.no_duplicates());
                    assert forall|k: K| after.contains(k) implies after.index_of(k) == if k == key {
                        before.len() as int
                    } else {
                        before.index_of(k)
                    } by {
                        assert(after[after.index_of(k)] == k);
                        if k != key {
                            assert(before.contains(k)) by {
                                assert(before[after.index_of(k)] == k);
                            }
                            assert(after[before.index_of(k)] == k);
                        }
                    }
                    assert forall|k: K| before.contains(k) implies after.contains(k) by {
                        assert(after[before.index_of(k)] == k);
                    }
                    assert forall|k: K| after.contains(k) && k != key implies before.contains(k) by {
                        assert(before[after.index_of(k)] == k);
                    }
                    assert(self@ =~= old(self)@.insert(key, value));
                }
                true
            },
        }
    }

    /// Takes a binding out and hands back its value.
    pub fn remove(&mut self, key: &K) -> (r: Option<V>)
        requires
            old(self).wf(),
        ensures
            final(self).wf(),
            final(self)@ == old(self)@.remove(*key),
            match r {
                Some(v) => old(self)@.dom().contains(*key) && v == old(self)@[*key],
                None => !old(self)@.dom().contains(*key) && *final(self) == *old(self),
            },
    {
        match self.position(key) {
            Some(i) => {
                self.names.remove(i);
                let value = self.values.remove(i);
                proof {
                    let before = old(self).names@;
                    let after = self.names@;
                    assert(after == before.remove(i as int));
                    assert forall|k: K| after.contains(k) implies {
                        &&& before.contains(k)
                        &&& k != *key
                        &&& before.index_of(k) == if after.index_of(k) < i {
                            after.index_of(k)
                        } else {
                            after.index_of(k) + 1
                        }
                    } by {
                        let j = after.index_of(k);
                        let m = if j < i { j } else { j + 1 };
                        assert(before[m] == k);
                    }
                    assert forall|k: K| before.contains(k) && k != *key implies after.contains(k) by {
                        let m = before.index_of(k);
                        let j = if m < i { m } else { m - 1 };
                        assert(after[j] == k);
                    }
                    assert(self@ =~= old(self)@.remove(*key));
                }
                Some(value)
            },
            None => {
                assert(self@ =~= old(self)@.remove(*key));
                None
            },
        }
    }

    pub fn len(&self) -> (r: usize)
        requires
            self.wf(),
        ensures
            r == self@.dom().len(),
    {
        proof {
            self.lemma_listed();
        }
        self.names.len()
    }

    /// The keys, each once.
    pub fn keys(&self) -> (r: Vec<K>)
        requires
            self.wf(),
        ensures
            r@ == self.listed(),
            r@.no_duplicates(),
            r@.to_set() == self@.dom(),
            r@.len() == self@.dom().len(),
    {
        proof {
            self.lemma_listed();
        }
        let mut r: Vec<K> = Vec::new();
        let mut i: usize = 0;
        while i < self.names.len()
            invariant
                i <= self.names@.len(),
                r@ == self.names@.subrange(0, i as int),
            decreases self.names@.len() - i,
        {
            r.push(self.names[i]);
            assert(r@ =~= self.names@.subrange(0, i + 1));
            i = i + 1;
        }
        assert(r@ =~= self.names@);
        r
    }

    pub proof fn lemma_listed(&self)
        requires
            self.wf(),
        ensures
            self.listed().no_duplicates(),
            self.listed().to_set() == self@.dom(),
            self.listed().len() == self@.dom().len(),
            self@.dom().finite(),
    {
        self.names@.unique_seq_to_set();
        assert(self.names@.to_set() =~= self@.dom());
    }
}

} // verus!
