//! A small keyed table that keeps its entries in the order in which their
//! keys first came, with one entry per key.

use vstd::prelude::*;

verus! {

/// A key of a [`Table`]: a value that can be told from another one.
pub trait TableKey: Copy + Sized {
    /// Whether the two keys are the same.
    fn same(&self, other: &Self) -> (r: bool)
        ensures
            r == (*self == *other),
    ;
}

/// Whether `k` is the key of one of `entries`.
pub open spec fn has_key<K, V>(entries: Seq<(K, V)>, k: K) -> bool {
    exists|i: int| 0 <= i < entries.len() && (#[trigger] entries[i]).0 == k
}

/// The place of an entry of `entries` with key `k`, where there is one.
pub open spec fn place_of<K, V>(entries: Seq<(K, V)>, k: K) -> int {
    choose|i: int| 0 <= i < entries.len() && (#[trigger] entries[i]).0 == k
}

/// The entries after `v` is put under key `k`: a key that is new goes to the
/// end, one that is there keeps its place and gets the new value.
pub open spec fn put<K, V>(entries: Seq<(K, V)>, k: K, v: V) -> Seq<(K, V)> {
    if has_key(entries, k) {
        entries.update(place_of(entries, k), (k, v))
    } else {
        entries.push((k, v))
    }
}

/// No two of `entries` have one key.
pub open spec fn keys_distinct<K, V>(entries: Seq<(K, V)>) -> bool {
    forall|i: int, j: int|
        0 <= i < j < entries.len() ==> (#[trigger] entries[i]).0 != (#[trigger] entries[j]).0
}

/// The map that `entries` spell out.
pub open spec fn map_of<K, V>(entries: Seq<(K, V)>) -> Map<K, V> {
    Map::new(|k: K| has_key(entries, k), |k: K| entries[place_of(entries, k)].1)
}

/// Where the keys are distinct, the place of a key is the one place that
/// holds it.
pub proof fn lemma_place_of<K, V>(entries: Seq<(K, V)>, i: int)
    requires
        keys_distinct(entries),
        0 <= i < entries.len(),
    ensures
        has_key(entries, entries[i].0),
        place_of(entries, entries[i].0) == i,
        map_of(entries).contains_key(entries[i].0),
        map_of(entries)[entries[i].0] == entries[i].1,
{
    let k = entries[i].0;
    let p = place_of(entries, k);
    assert(0 <= p < entries.len() && entries[p].0 == k);
    if p < i {
        assert(entries[p].0 != entries[i].0);
    } else if i < p {
        assert(entries[i].0 != entries[p].0);
    }
}

/// The keys of the first `n + 1` entries are those of the first `n` and the
/// key of the entry at place `n`, which is not among them where the keys are
/// distinct.
pub proof fn lemma_has_key_take<K, V>(entries: Seq<(K, V)>, n: int)
    requires
        0 <= n < entries.len(),
    ensures
        forall|q: K|
            has_key(entries.take(n + 1), q) <==> has_key(entries.take(n), q) || q == entries[n].0,
        keys_distinct(entries) ==> !has_key(entries.take(n), entries[n].0),
        has_key(entries, entries[n].0),
{
    let shorter = entries.take(n);
    let longer = entries.take(n + 1);
    assert forall|q: K| has_key(longer, q) <==> has_key(shorter, q) || q == entries[n].0 by {
        if has_key(longer, q) {
            let i = place_of(longer, q);
            if i < n {
                assert(shorter[i].0 == q);
            }
        }
        if has_key(shorter, q) {
            let i = place_of(shorter, q);
            assert(longer[i].0 == q);
        }
        if q == entries[n].0 {
            assert(longer[n].0 == q);
        }
    }
    if keys_distinct(entries) && has_key(shorter, entries[n].0) {
        let i = place_of(shorter, entries[n].0);
        assert(entries[i].0 != entries[n].0);
    }
    assert(entries[n].0 == entries[n].0);
}

/// A table from keys to values.
#[derive(Debug)]
pub struct Table<K, V> {
    entries: Vec<(K, V)>,
}

impl<K: TableKey, V> View for Table<K, V> {
    type V = Map<K, V>;

    /// The table as a map.
    closed spec fn view(&self) -> Map<K, V> {
        map_of(self.entries@)
    }
}

impl<K: TableKey, V> Table<K, V> {
    /// The entries in the order in which their keys first came.
    pub closed spec fn entries(&self) -> Seq<(K, V)> {
        self.entries@
    }

    /// No key stands twice, and the map is the one that the entries spell
    /// out.
    pub open spec fn wf(&self) -> bool {
        &&& keys_distinct(self.entries())
        &&& self@ == map_of(self.entries())
    }

    /// The empty table.
    pub fn new() -> (table: Table<K, V>)
        ensures
            table.wf(),
            table.entries() == Seq::<(K, V)>::empty(),
            table@ == Map::<K, V>::empty(),
    {
        let table = Table { entries: Vec::new() };
        assert(table@ =~= Map::<K, V>::empty());
        table
    }

    /// The number of entries.
    pub fn len(&self) -> (n: usize)
        ensures
            n == self.entries().len(),
    {
        self.entries.len()
    }

    /// The place of the entry with key `k`.
    pub fn position(&self, k: &K) -> (r: Option<usize>)
        requires
            self.wf(),
        ensures
            match r {
                Some(i) => i < self.entries().len() && self.entries()[i as int].0 == *k
                    && self@.contains_key(*k) && self@[*k] == self.entries()[i as int].1,
                None => !self@.contains_key(*k) && !has_key(self.entries(), *k),
            },
    {
        let mut i: usize = 0;
        while i < self.entries.len()
            invariant
                self.wf(),
                i <= self.entries@.len(),
                forall|j: int| 0 <= j < i ==> (#[trigger] self.entries@[j]).0 != *k,
            decreases self.entries@.len() - i,
        {
            if self.entries[i].0.same(k) {
                proof {
                    lemma_place_of(self.entries@, i as int);
                }
                return Some(i);
            }
            i += 1;
        }
        None
    }

    /// Whether the table has an entry with key `k`.
    pub fn contains_key(&self, k: &K) -> (r: bool)
        requires
            self.wf(),
        ensures
            r == self@.contains_key(*k),
    {
        self.position(k).is_some()
    }

    /// The value that stands under key `k`.
    pub fn get(&self, k: &K) -> (r: Option<&V>)
        requires
            self.wf(),
        ensures
            match r {
                Some(v) => self@.contains_key(*k) && *v == self@[*k],
                None => !self@.contains_key(*k),
            },
    {
        match self.position(k) {
            Some(i) => Some(&self.entries[i].1),
            None => None,
        }
    }

    /// The key of the entry at place `i`.
    pub fn key_at(&self, i: usize) -> (k: K)
        requires
            self.wf(),
            i < self.entries().len(),
        ensures
            k == self.entries()[i as int].0,
            self@.contains_key(k),
            self@[k] == self.entries()[i as int].1,
    {
        proof {
            lemma_place_of(self.entries@, i as int);
        }
        self.entries[i].0
    }

    /// The value of the entry at place `i`.
    pub fn value_at(&self, i: usize) -> (v: &V)
        requires
            self.wf(),
            i < self.entries().len(),
        ensures
            *v == self.entries()[i as int].1,
            *v == self@[self.entries()[i as int].0],
    {
        proof {
            lemma_place_of(self.entries@, i as int);
        }
        &self.entries[i].1
    }

    /// Puts `v` under key `k`. A key that is new goes to the end; one that
    /// is there keeps its place and gets the new value.
    pub fn insert(&mut self, k: K, v: V)
        requires
            old(self).wf(),
        ensures
            final(self).wf(),
            final(self)@ == old(self)@.insert(k, v),
            final(self).entries() == put(old(self).entries(), k, v),
    {
        let ghost before = self.entries@;
        match self.position(&k) {
            Some(i) => {
                proof {
                    lemma_place_of(before, i as int);
                }
                self.entries.set(i, (k, v));
                proof {
                    let after = self.entries@;
                    assert(keys_distinct(after)) by {
                        assert forall|a: int, b: int| 0 <= a < b < after.len() implies (
                        #[trigger] after[a]).0 != (#[trigger] after[b]).0 by {
                            assert(after[a].0 == before[a].0);
                            assert(after[b].0 == before[b].0);
                        }
                    }
                    lemma_map_of_update(before, i as int, v);
                }
            },
            None => {
                self.entries.push((k, v));
                proof {
                    lemma_map_of_push(before, k, v);
                }
            },
        }
    }
}

/// Giving the entry at place `i` the value `v` is an insert under its key.
pub proof fn lemma_map_of_update<K, V>(entries: Seq<(K, V)>, i: int, v: V)
    requires
        keys_distinct(entries),
        0 <= i < entries.len(),
    ensures
        keys_distinct(entries.update(i, (entries[i].0, v))),
        map_of(entries.update(i, (entries[i].0, v))) == map_of(entries).insert(entries[i].0, v),
{
    let k = entries[i].0;
    let after = entries.update(i, (k, v));
    assert(keys_distinct(after)) by {
        assert forall|a: int, b: int| 0 <= a < b < after.len() implies (#[trigger] after[a]).0 != (
        #[trigger] after[b]).0 by {
            assert(after[a].0 == entries[a].0);
            assert(after[b].0 == entries[b].0);
        }
    }
    assert forall|q: K| has_key(after, q) == has_key(entries, q) by {
        if has_key(entries, q) {
            let p = place_of(entries, q);
            assert(after[p].0 == q);
        }
        if has_key(after, q) {
            let p = place_of(after, q);
            assert(entries[p].0 == q);
        }
    }
    assert forall|q: K| has_key(after, q) implies map_of(after)[q] == map_of(entries).insert(
        k,
        v,
    )[q] by {
        let p = place_of(after, q);
        lemma_place_of(after, p);
        lemma_place_of(entries, p);
    }
    lemma_place_of(entries, i);
    assert(map_of(after) =~= map_of(entries).insert(k, v));
}

/// Adding an entry with a new key at the end is an insert under that key.
pub proof fn lemma_map_of_push<K, V>(entries: Seq<(K, V)>, k: K, v: V)
    requires
        keys_distinct(entries),
        !has_key(entries, k),
    ensures
        keys_distinct(entries.push((k, v))),
        map_of(entries.push((k, v))) == map_of(entries).insert(k, v),
{
    let after = entries.push((k, v));
    assert(keys_distinct(after)) by {
        assert forall|a: int, b: int| 0 <= a < b < after.len() implies (#[trigger] after[a]).0 != (
        #[trigger] after[b]).0 by {
            if b < entries.len() {
                assert(after[a] == entries[a] && after[b] == entries[b]);
            } else {
                assert(after[a] == entries[a]);
                assert(entries[a].0 != k);
            }
        }
    }
    assert(after[entries.len() as int].0 == k);
    assert forall|q: K| has_key(after, q) == (has_key(entries, q) || q == k) by {
        if has_key(entries, q) {
            let p = place_of(entries, q);
            assert(after[p].0 == q);
        }
        if has_key(after, q) && q != k {
            let p = place_of(after, q);
            assert(entries[p].0 == q);
        }
    }
    assert forall|q: K| has_key(after, q) implies map_of(after)[q] == map_of(entries).insert(
        k,
        v,
    )[q] by {
        let p = place_of(after, q);
        lemma_place_of(after, p);
        if p < entries.len() {
            assert(after[p] == entries[p]);
            lemma_place_of(entries, p);
        }
    }
    assert(map_of(after) =~= map_of(entries).insert(k, v));
}

} // verus!
