//! A keyed store: a finite map from keys to records, with lookup, insertion
//! and removal. The registries of the state machine are tables of this kind.

use vstd::prelude::*;

verus! {

/// A key of a [`Table`]: a plain value that can be compared at run time.
pub trait Key: Sized {
    /// Whether `self` and `other` are the same key.
    fn same(&self, other: &Self) -> (b: bool)
        ensures
            b == (*self == *other),
    ;
}

impl Key for u32 {
    fn same(&self, other: &Self) -> (b: bool) {
        *self == *other
    }
}

impl Key for (u32, u32) {
    fn same(&self, other: &Self) -> (b: bool) {
        self.0 == other.0 && self.1 == other.1
    }
}

impl Key for (u32, u32, u32) {
    fn same(&self, other: &Self) -> (b: bool) {
        self.0 == other.0 && self.1 == other.1 && self.2 == other.2
    }
}

/// A finite map from `K` to `V`, kept as a list of entries with distinct keys.
///
/// Its view is the map from each key to the view of its record.
#[derive(Clone, Debug, PartialEq, Eq)]
pub struct Table<K, V> {
    entries: Vec<(K, V)>,
}

impl<K: Key + Copy, V: View> View for Table<K, V> {
    type V = Map<K, V::V>;

    closed spec fn view(&self) -> Map<K, V::V> {
        Map::new(
            |k: K| exists|i: int| self.holds_at(k, i),
            |k: K| self.entries@[choose|i: int| self.holds_at(k, i)].1@,
        )
    }
}

impl<K: Key + Copy, V: View> Table<K, V> {
    /// Entry `i` exists and is the entry of key `k`.
    spec fn holds_at(&self, k: K, i: int) -> bool {
        0 <= i < self.entries@.len() && self.entries@[i].0 == k
    }

    /// No key has two entries.
    pub closed spec fn wf(&self) -> bool {
        forall|i: int, j: int|
            0 <= i < j < self.entries@.len() ==> self.entries@[i].0 != self.entries@[j].0
    }

    /// Entry `i` is what the view holds for its key.
    proof fn lemma_entry(&self, i: int)
        requires
            self.wf(),
            0 <= i < self.entries@.len(),
        ensures
            self@.contains_key(self.entries@[i].0),
            self@[self.entries@[i].0] == self.entries@[i].1@,
    {
        let k = self.entries@[i].0;
        assert(self.holds_at(k, i));
        let j = choose|j: int| self.holds_at(k, j);
        assert(self.holds_at(k, j));
        assert(j == i);
    }

    /// A key of the view has an entry.
    proof fn lemma_present(&self, k: K) -> (i: int)
        requires
            self.wf(),
            self@.contains_key(k),
        ensures
            self.holds_at(k, i),
            self@[k] == self.entries@[i].1@,
    {
        let i = choose|i: int| self.holds_at(k, i);
        self.lemma_entry(i);
        i
    }

    /// The table without entry `i` is the table without that entry's key.
    proof fn lemma_removed(&self, before: &Self, i: int)
        requires
            before.wf(),
            0 <= i < before.entries@.len(),
            self.entries@ == before.entries@.remove(i),
        ensures
            self.wf(),
            self@ == before@.remove(before.entries@[i].0),
    {
        let gone = before.entries@[i].0;
        assert forall|a: int, b: int| 0 <= a < b < self.entries@.len() implies self.entries@[a].0
            != self.entries@[b].0 by {
            let a0 = if a < i { a } else { a + 1 };
            let b0 = if b < i { b } else { b + 1 };
            assert(self.entries@[a] == before.entries@[a0]);
            assert(self.entries@[b] == before.entries@[b0]);
        }
        assert forall|k: K| #[trigger] self@.contains_key(k) == before@.remove(gone).contains_key(k)
            && (self@.contains_key(k) ==> self@[k] == before@.remove(gone)[k]) by {
            if self@.contains_key(k) {
                let a = self.lemma_present(k);
                let a0 = if a < i { a } else { a + 1 };
                assert(self.entries@[a] == before.entries@[a0]);
                before.lemma_entry(a0);
                assert(a0 != i);
                assert(k != gone);
            }
            if before@.remove(gone).contains_key(k) {
                let b0 = before.lemma_present(k);
                assert(b0 != i);
                let b = if b0 < i { b0 } else { b0 - 1 };
                assert(self.entries@[b] == before.entries@[b0]);
                self.lemma_entry(b);
            }
        }
        assert(self@ =~= before@.remove(gone));
    }

    /// The empty table.
    pub fn new() -> (table: Self)
        ensures
            table.wf(),
            table@ == Map::<K, V::V>::empty(),
    {
        let table = Table { entries: Vec::new() };
        assert(table@ =~= Map::<K, V::V>::empty());
        table
    }

    /// The place of the entry of `key`, if it has one.
    fn find(&self, key: &K) -> (place: Option<usize>)
        requires
            self.wf(),
        ensures
            match place {
                Some(i) => self.holds_at(*key, i as int) && self@.contains_key(*key),
                None => !self@.contains_key(*key),
            },
    {
        let mut i: usize = 0;
        while i < self.entries.len()
            invariant
                self.wf(),
                i <= self.entries@.len(),
                forall|j: int| 0 <= j < i ==> self.entries@[j].0 != *key,
            decreases self.entries@.len() - i,
        {
            if self.entries[i].0.same(key) {
                proof {
                    self.lemma_entry(i as int);
                }
                return Some(i);
            }
            i += 1;
        }
        None
    }

    /// Whether `key` has a record.
    pub fn contains_key(&self, key: &K) -> (b: bool)
        requires
            self.wf(),
        ensures
            b == self@.contains_key(*key),
    {
        self.find(key).is_some()
    }

    /// The record of `key`, if it has one.
    pub fn get(&self, key: &K) -> (record: Option<&V>)
        requires
            self.wf(),
        ensures
            match record {
                Some(v) => self@.contains_key(*key) && v@ == self@[*key],
                None => !self@.contains_key(*key),
            },
    {
        match self.find(key) {
            Some(i) => {
                proof {
                    self.lemma_entry(i as int);
                }
                Some(&self.entries[i].1)
            },
            None => None,
        }
    }

    /// Gives `key` the record `record`, in place of the one it had, if any.
    pub fn insert(&mut self, key: K, record: V)
        requires
            old(self).wf(),
        ensures
            final(self).wf(),
            final(self)@ == old(self)@.insert(key, record@),
    {
        let ghost before = *self;
        match self.find(&key) {
            Some(i) => {
                self.entries.set(i, (key, record));
                proof {
                    assert forall|k: K| #[trigger]
                        self@.contains_key(k) == before@.insert(key, record@).contains_key(k) && (
                    self@.contains_key(k) ==> self@[k] == before@.insert(key, record@)[k]) by {
                        if self@.contains_key(k) {
                            let a = self.lemma_present(k);
                            assert(before.entries@[a].0 == k);
                            before.lemma_entry(a);
                        }
                        if before@.insert(key, record@).contains_key(k) {
                            if k == key {
                                self.lemma_entry(i as int);
                            } else {
                                let b = before.lemma_present(k);
                                assert(self.entries@[b] == before.entries@[b]);
                                self.lemma_entry(b);
                            }
                        }
                    }
                    assert(self@ =~= before@.insert(key, record@));
                }
            },
            None => {
                self.entries.push((key, record));
                proof {
                    let n = before.entries@.len() as int;
                    assert forall|a: int, b: int| 0 <= a < b < self.entries@.len() implies
                        self.entries@[a].0 != self.entries@[b].0 by {
                        if b == n {
                            if before.entries@[a].0 == key {
                                before.lemma_entry(a);
                            }
                        }
                    }
                    assert forall|k: K| #[trigger]
                        self@.contains_key(k) == before@.insert(key, record@).contains_key(k) && (
                    self@.contains_key(k) ==> self@[k] == before@.insert(key, record@)[k]) by {
                        if self@.contains_key(k) {
                            let a = self.lemma_present(k);
                            if a < n {
                                assert(before.entries@[a] == self.entries@[a]);
                                before.lemma_entry(a);
                            }
                        }
                        if before@.insert(key, record@).contains_key(k) {
                            if k == key {
                                self.lemma_entry(n);
                            } else {
                                let b = before.lemma_present(k);
                                assert(self.entries@[b] == before.entries@[b]);
                                self.lemma_entry(b);
                            }
                        }
                    }
                    assert(self@ =~= before@.insert(key, record@));
                }
            },
        }
    }

    /// Takes the record of `key` out of the table, if it has one.
    pub fn remove(&mut self, key: &K) -> (record: Option<V>)
        requires
            old(self).wf(),
        ensures
            final(self).wf(),
            final(self)@ == old(self)@.remove(*key),
            match record {
                Some(v) => old(self)@.contains_key(*key) && v@ == old(self)@[*key],
                None => !old(self)@.contains_key(*key),
            },
    {
        let ghost before = *self;
        match self.find(key) {
            Some(i) => {
                let (_, record) = self.entries.remove(i);
                proof {
                    before.lemma_entry(i as int);
                    self.lemma_removed(&before, i as int);
                }
                Some(record)
            },
            None => {
                assert(self@ =~= before@.remove(*key));
                None
            },
        }
    }
}

impl<V: View> Table<(u32, u32), V> {
    /// Whether some key with the first part `first` has a record.
    pub fn any_under(&self, first: u32) -> (b: bool)
        requires
            self.wf(),
        ensures
            b == exists|second: u32| self@.contains_key((first, second)),
    {
        let mut i: usize = 0;
        while i < self.entries.len()
            invariant
                self.wf(),
                i <= self.entries@.len(),
                forall|j: int| 0 <= j < i ==> self.entries@[j].0.0 != first,
            decreases self.entries@.len() - i,
        {
            if self.entries[i].0.0 == first {
                proof {
                    self.lemma_entry(i as int);
                    assert(self@.contains_key((first, self.entries@[i as int].0.1)));
                }
                return true;
            }
            i += 1;
        }
        proof {
            assert forall|second: u32| !self@.contains_key((first, second)) by {
                if self@.contains_key((first, second)) {
                    let a = self.lemma_present((first, second));
                }
            }
        }
        false
    }
}

impl<V: View> Table<(u32, u32, u32), V> {
    /// Removes every record whose key begins with `first` and `second`.
    pub fn remove_under(&mut self, first: u32, second: u32)
        requires
            old(self).wf(),
        ensures
            final(self).wf(),
            final(self)@ == old(self)@.remove_keys(
                Set::new(|k: (u32, u32, u32)| k.0 == first && k.1 == second),
            ),
    {
        let ghost before = *self;
        let ghost under = Set::new(|k: (u32, u32, u32)| k.0 == first && k.1 == second);
        let mut i: usize = 0;
        while i < self.entries.len()
            invariant
                self.wf(),
                i <= self.entries@.len(),
                under == Set::new(|k: (u32, u32, u32)| k.0 == first && k.1 == second),
                forall|j: int| 0 <= j < i ==> !under.contains(#[trigger] self.entries@[j].0),
                forall|k: (u32, u32, u32)| #[trigger]
                    self@.contains_key(k) ==> before@.contains_key(k) && self@[k] == before@[k],
                forall|k: (u32, u32, u32)|
                    before@.contains_key(k) && !under.contains(k) ==> #[trigger] self@.contains_key(
                        k,
                    ),
            decreases self.entries@.len() - i,
        {
            if self.entries[i].0.0 == first && self.entries[i].0.1 == second {
                let ghost earlier = *self;
                let _ = self.entries.remove(i);
                proof {
                    self.lemma_removed(&earlier, i as int);
                    assert forall|j: int| 0 <= j < i implies !under.contains(
                        #[trigger] self.entries@[j].0,
                    ) by {
                        assert(self.entries@[j] == earlier.entries@[j]);
                    }
                }
            } else {
                i += 1;
            }
        }
        proof {
            let after = before@.remove_keys(under);
            assert forall|k: (u32, u32, u32)| #[trigger]
                self@.contains_key(k) == after.contains_key(k) && (self@.contains_key(k)
                    ==> self@[k] == after[k]) by {
                if self@.contains_key(k) {
                    let a = self.lemma_present(k);
                    assert(!under.contains(self.entries@[a].0));
                }
            }
            assert(self@ =~= after);
        }
    }
}

} // verus!
