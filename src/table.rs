//! A finite key-value table kept as a list of entries with distinct keys.
use vstd::prelude::*;
use crate::num::U256;
use crate::address::{Address, AddressPair};

verus! {

/// Keys whose equality can be decided at run time.
pub trait TableKey: Copy + Sized {
    fn same(&self, other: &Self) -> (r: bool)
        ensures
            r == (*self == *other),
    ;
}

impl TableKey for Address {
    fn same(&self, other: &Self) -> (r: bool) {
        *self == *other
    }
}

impl TableKey for AddressPair {
    fn same(&self, other: &Self) -> (r: bool) {
        *self == *other
    }
}

impl TableKey for U256 {
    fn same(&self, other: &Self) -> (r: bool) {
        *self == *other
    }
}

#[verifier::reject_recursive_types(K)]
pub struct Table<K, V> {
    pub entries: Vec<(K, V)>,
    pub map: Ghost<Map<K, V>>,
}

impl<K: TableKey, V: Copy> Table<K, V> {
    pub open spec fn view(&self) -> Map<K, V> {
        self.map@
    }

    pub open spec fn wf(&self) -> bool {
        &&& forall|i: int, j: int|
            0 <= i < self.entries@.len() && 0 <= j < self.entries@.len() && i != j
                ==> #[trigger] self.entries@[i].0 != #[trigger] self.entries@[j].0
        &&& forall|i: int|
            0 <= i < self.entries@.len() ==> {
                &&& self.map@.contains_key(#[trigger] self.entries@[i].0)
                &&& self.map@[self.entries@[i].0] == self.entries@[i].1
            }
        &&& forall|k: K| #[trigger]
            self.map@.contains_key(k) ==> exists|i: int|
                0 <= i < self.entries@.len() && #[trigger] self.entries@[i].0 == k
    }

    /// The value under `k`, or `dflt` where `k` has none.
    pub open spec fn value_or(&self, k: K, dflt: V) -> V {
        if self.map@.contains_key(k) {
            self.map@[k]
        } else {
            dflt
        }
    }

    pub fn new() -> (r: Self)
        ensures
            r.wf(),
            r@ == Map::<K, V>::empty(),
            r.entries@.len() == 0,
    {
        Table { entries: Vec::new(), map: Ghost(Map::empty()) }
    }

    pub fn find(&self, k: &K) -> (r: Option<usize>)
        requires
            self.wf(),
        ensures
            r.is_some() == self@.contains_key(*k),
            r.is_some() ==> r.unwrap() < self.entries@.len() && self.entries@[r.unwrap() as int].0
                == *k,
    {
        let mut i: usize = 0;
        while i < self.entries.len()
            invariant
                self.wf(),
                i <= self.entries@.len(),
                forall|j: int| 0 <= j < i ==> self.entries@[j].0 != *k,
            decreases self.entries@.len() - i,
        {
            if self.entries[i].0.same(k) {
                return Some(i);
            }
            i = i + 1;
        }
        proof {
            if self@.contains_key(*k) {
                let j = choose|j: int| 0 <= j < self.entries@.len() && #[trigger] self.entries@[j].0 == *k;
                assert(self.entries@[j].0 == *k);
            }
        }
        None
    }

    pub fn get_or(&self, k: &K, dflt: V) -> (r: V)
        requires
            self.wf(),
        ensures
            r == self.value_or(*k, dflt),
    {
        match self.find(k) {
            Some(i) => self.entries[i].1,
            None => dflt,
        }
    }

    pub fn set(&mut self, k: K, v: V)
        requires
            old(self).wf(),
        ensures
            final(self).wf(),
            final(self)@ == old(self)@.insert(k, v),
            old(self)@.contains_key(k) ==> exists|i: int|
                0 <= i < old(self).entries@.len() && old(self).entries@[i].0 == k
                    && final(self).entries@ == old(self).entries@.update(i, (k, v)),
            !old(self)@.contains_key(k) ==> final(self).entries@ == old(self).entries@.push((k, v)),
    {
        match self.find(&k) {
            Some(i) => {
                self.entries.set(i, (k, v));
                self.map = Ghost(self.map@.insert(k, v));
                proof {
                    assert(self.entries@ == old(self).entries@.update(i as int, (k, v)));
                    assert forall|kk: K| #[trigger] self.map@.contains_key(kk) implies exists|j: int|
                        0 <= j < self.entries@.len() && #[trigger] self.entries@[j].0 == kk by {
                        if kk != k {
                            let j = choose|j: int| 0 <= j < old(self).entries@.len() && #[trigger] old(self).entries@[j].0 == kk;
                            assert(self.entries@[j].0 == kk);
                        } else {
                            assert(self.entries@[i as int].0 == kk);
                        }
                    }
                }
            },
            None => {
                self.entries.push((k, v));
                self.map = Ghost(self.map@.insert(k, v));
                proof {
                    let n = old(self).entries@.len() as int;
                    assert forall|kk: K| #[trigger] self.map@.contains_key(kk) implies exists|j: int|
                        0 <= j < self.entries@.len() && #[trigger] self.entries@[j].0 == kk by {
                        if kk != k {
                            let j = choose|j: int| 0 <= j < old(self).entries@.len() && #[trigger] old(self).entries@[j].0 == kk;
                            assert(self.entries@[j].0 == kk);
                        } else {
                            assert(self.entries@[n].0 == kk);
                        }
                    }
                }
            },
        }
    }
}

} // verus!
