//! A table of entries under distinct keys: the shape of a contract's storage.

use crate::types::{Address, Symbol};
use vstd::prelude::*;

verus! {

/// A plain value that an entry can be found by.
pub trait Key: Sized {
    fn same(&self, other: &Self) -> (yes: bool)
        ensures
            yes == (*self == *other),
    ;
}

impl Key for u32 {
    fn same(&self, other: &Self) -> (yes: bool) {
        *self == *other
    }
}

impl Key for u64 {
    fn same(&self, other: &Self) -> (yes: bool) {
        *self == *other
    }
}

impl Key for Address {
    fn same(&self, other: &Self) -> (yes: bool) {
        *self == *other
    }
}

impl Key for Symbol {
    fn same(&self, other: &Self) -> (yes: bool) {
        *self == *other
    }
}

impl Key for (u32, Address) {
    fn same(&self, other: &Self) -> (yes: bool) {
        self.0 == other.0 && self.1 == other.1
    }
}

impl Key for (Address, u32) {
    fn same(&self, other: &Self) -> (yes: bool) {
        self.0 == other.0 && self.1 == other.1
    }
}

impl Key for (Address, u64) {
    fn same(&self, other: &Self) -> (yes: bool) {
        self.0 == other.0 && self.1 == other.1
    }
}

/// The value under `k`, or `default`.
pub open spec fn at_or<K, V>(m: Map<K, V>, k: K, default: V) -> V {
    if m.contains_key(k) {
        m[k]
    } else {
        default
    }
}

/// The map that a sequence of entries stands for; a later entry wins.
pub open spec fn map_of<K, V>(entries: Seq<(K, V)>) -> Map<K, V>
    decreases entries.len(),
{
    if entries.len() == 0 {
        Map::empty()
    } else {
        map_of(entries.drop_last()).insert(entries.last().0, entries.last().1)
    }
}

/// No key stands twice.
pub open spec fn distinct_keys<K, V>(entries: Seq<(K, V)>) -> bool {
    forall|i: int, j: int|
        0 <= i < j < entries.len() ==> (#[trigger] entries[i]).0 != (#[trigger] entries[j]).0
}

proof fn lemma_map_of<K, V>(entries: Seq<(K, V)>, k: K)
    requires
        distinct_keys(entries),
    ensures
        map_of(entries).contains_key(k) <==> exists|i: int|
            0 <= i < entries.len() && (#[trigger] entries[i]).0 == k,
        forall|i: int|
            0 <= i < entries.len() && (#[trigger] entries[i]).0 == k ==> map_of(entries)[k]
                == entries[i].1,
    decreases entries.len(),
{
    if entries.len() > 0 {
        let front = entries.drop_last();
        assert forall|i: int, j: int| 0 <= i < j < front.len() implies (#[trigger] front[i]).0 != (
        #[trigger] front[j]).0 by {
            assert(front[i] == entries[i] && front[j] == entries[j]);
        }
        lemma_map_of(front, k);
        let n = entries.len() - 1;
        if entries[n].0 == k {
            assert forall|i: int| 0 <= i < entries.len() && (#[trigger] entries[i]).0 == k implies i
                == n by {}
        } else {
            if map_of(entries).contains_key(k) {
                let i = choose|i: int| 0 <= i < front.len() && (#[trigger] front[i]).0 == k;
                assert(entries[i].0 == k);
            }
            assert forall|i: int| 0 <= i < entries.len() && (#[trigger] entries[i]).0 == k implies
                map_of(entries)[k] == entries[i].1 by {
                assert(front[i] == entries[i]);
            }
            if exists|i: int| 0 <= i < entries.len() && (#[trigger] entries[i]).0 == k {
                let i = choose|i: int| 0 <= i < entries.len() && (#[trigger] entries[i]).0 == k;
                assert(front[i].0 == k);
            }
        }
    }
}

proof fn lemma_map_of_value<K, V>(entries: Seq<(K, V)>, i: int)
    requires
        distinct_keys(entries),
        0 <= i < entries.len(),
    ensures
        map_of(entries).contains_key(entries[i].0),
        map_of(entries)[entries[i].0] == entries[i].1,
{
    lemma_map_of(entries, entries[i].0);
}

proof fn lemma_map_of_update<K, V>(entries: Seq<(K, V)>, i: int, v: V)
    requires
        distinct_keys(entries),
        0 <= i < entries.len(),
    ensures
        distinct_keys(entries.update(i, (entries[i].0, v))),
        map_of(entries.update(i, (entries[i].0, v))) == map_of(entries).insert(entries[i].0, v),
{
    let k0 = entries[i].0;
    let after = entries.update(i, (k0, v));
    assert forall|a: int, b: int| 0 <= a < b < after.len() implies (#[trigger] after[a]).0 != (
    #[trigger] after[b]).0 by {
        assert(entries[a].0 != entries[b].0);
    }
    let want = map_of(entries).insert(k0, v);
    assert forall|k: K|
        (#[trigger] map_of(after).dom().contains(k) == want.dom().contains(k)) && (map_of(
            after,
        ).dom().contains(k) ==> map_of(after)[k] == want[k]) by {
        lemma_map_of(entries, k);
        lemma_map_of(after, k);
        if k == k0 {
            assert(after[i].0 == k);
        } else {
            if map_of(after).contains_key(k) {
                let j = choose|j: int| 0 <= j < after.len() && (#[trigger] after[j]).0 == k;
                assert(entries[j] == after[j]);
            }
            if map_of(entries).contains_key(k) {
                let j = choose|j: int| 0 <= j < entries.len() && (#[trigger] entries[j]).0 == k;
                assert(entries[j] == after[j]);
            }
        }
    }
    assert(map_of(after).dom() =~= want.dom());
    assert(map_of(after) =~= want);
}

proof fn lemma_map_of_remove<K, V>(entries: Seq<(K, V)>, i: int)
    requires
        distinct_keys(entries),
        0 <= i < entries.len(),
    ensures
        distinct_keys(entries.remove(i)),
        map_of(entries.remove(i)) == map_of(entries).remove(entries[i].0),
{
    let k0 = entries[i].0;
    let after = entries.remove(i);
    let back = |j: int| if j < i { j } else { j + 1 };
    assert forall|j: int| 0 <= j < after.len() implies #[trigger] after[j] == entries[back(j)] by {}
    assert forall|a: int, b: int| 0 <= a < b < after.len() implies (#[trigger] after[a]).0 != (
    #[trigger] after[b]).0 by {
        assert(entries[back(a)].0 != entries[back(b)].0);
    }
    let want = map_of(entries).remove(k0);
    assert forall|k: K|
        (#[trigger] map_of(after).dom().contains(k) == want.dom().contains(k)) && (map_of(
            after,
        ).dom().contains(k) ==> map_of(after)[k] == want[k]) by {
        lemma_map_of(entries, k);
        lemma_map_of(after, k);
        if map_of(after).contains_key(k) {
            let j = choose|j: int| 0 <= j < after.len() && (#[trigger] after[j]).0 == k;
            assert(entries[back(j)].0 == k);
            assert(entries[back(j)].0 != entries[i].0);
        }
        if map_of(entries).contains_key(k) && k != k0 {
            let j = choose|j: int| 0 <= j < entries.len() && (#[trigger] entries[j]).0 == k;
            let p = if j < i { j } else { j - 1 };
            assert(after[p] == entries[j]);
        }
    }
    assert(map_of(after).dom() =~= want.dom());
    assert(map_of(after) =~= want);
}

/// Entries under distinct keys.
#[verifier::reject_recursive_types(K)]
pub struct Table<K: Key, V> {
    entries: Vec<(K, V)>,
}

impl<K: Key, V> View for Table<K, V> {
    type V = Map<K, V>;

    closed spec fn view(&self) -> Map<K, V> {
        map_of(self.entries@)
    }
}

impl<K: Key, V> Table<K, V> {
    #[verifier::type_invariant]
    spec fn keys_are_distinct(self) -> bool {
        distinct_keys(self.entries@)
    }

    /// A table without entries.
    pub fn new() -> (table: Self)
        ensures
            table@ == Map::<K, V>::empty(),
    {
        Table { entries: Vec::new() }
    }

    fn position(&self, k: &K) -> (at: Option<usize>)
        ensures
            match at {
                Some(i) => i < self.entries@.len() && self.entries@[i as int].0 == *k
                    && self@.contains_key(*k) && self@[*k] == self.entries@[i as int].1,
                None => !self@.contains_key(*k),
            },
    {
        proof {
            use_type_invariant(self);
            lemma_map_of(self.entries@, *k);
        }
        let n: usize = self.entries.len();
        for i in 0..n
            invariant
                n == self.entries@.len(),
                distinct_keys(self.entries@),
                forall|j: int| 0 <= j < i ==> (#[trigger] self.entries@[j]).0 != *k,
        {
            if self.entries[i].0.same(k) {
                proof {
                    lemma_map_of_value(self.entries@, i as int);
                }
                return Some(i);
            }
        }
        None
    }

    /// The value under `k`.
    pub fn get(&self, k: &K) -> (value: Option<&V>)
        ensures
            match value {
                Some(v) => self@.contains_key(*k) && *v == self@[*k],
                None => !self@.contains_key(*k),
            },
    {
        match self.position(k) {
            Some(i) => Some(&self.entries[i].1),
            None => None,
        }
    }

    /// Whether there is a value under `k`.
    pub fn has(&self, k: &K) -> (yes: bool)
        ensures
            yes == self@.contains_key(*k),
    {
        self.position(k).is_some()
    }

    /// Puts `v` under `k`, in the place of what stood there.
    pub fn set(&mut self, k: K, v: V)
        ensures
            final(self)@ == old(self)@.insert(k, v),
    {
        let at = self.position(&k);
        proof {
            use_type_invariant(&*self);
        }
        let ghost before = self.entries@;
        let mut entries: Vec<(K, V)> = Vec::new();
        std::mem::swap(&mut entries, &mut self.entries);
        match at {
            Some(i) => {
                proof {
                    lemma_map_of_update(before, i as int, v);
                }
                entries.set(i, (k, v));
            },
            None => {
                proof {
                    lemma_map_of(before, k);
                    assert(before.push((k, v)).drop_last() =~= before);
                    assert forall|a: int, b: int|
                        0 <= a < b < before.push((k, v)).len() implies (#[trigger] before.push(
                        (k, v),
                    )[a]).0 != (#[trigger] before.push((k, v))[b]).0 by {
                        if b == before.len() {
                            assert(before[a].0 != k);
                        } else {
                            assert(before[a].0 != before[b].0);
                        }
                    }
                }
                entries.push((k, v));
            },
        }
        self.entries = entries;
    }

    /// Takes out what stands under `k`.
    pub fn remove(&mut self, k: &K) -> (value: Option<V>)
        ensures
            final(self)@ == old(self)@.remove(*k),
            match value {
                Some(v) => old(self)@.contains_key(*k) && v == old(self)@[*k],
                None => !old(self)@.contains_key(*k),
            },
    {
        let at = self.position(k);
        proof {
            use_type_invariant(&*self);
        }
        match at {
            Some(i) => {
                let ghost before = self.entries@;
                let mut entries: Vec<(K, V)> = Vec::new();
                std::mem::swap(&mut entries, &mut self.entries);
                proof {
                    lemma_map_of_remove(before, i as int);
                }
                let entry = entries.remove(i);
                self.entries = entries;
                Some(entry.1)
            },
            None => {
                assert(self@.remove(*k) =~= self@);
                None
            },
        }
    }
}

} // verus!
