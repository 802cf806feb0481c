//! A small keyed store: an association list from `u64` identifiers to
//! records, abstracted as a mathematical `Map`. It backs both the lease
//! ledger and the token model's per-holder tables.

use vstd::prelude::*;

verus! {

/// True when no key occurs twice in the pair sequence.
pub open spec fn unique_keys<V>(s: Seq<(u64, V)>) -> bool {
    forall|i: int, j: int| 0 <= i < j < s.len() ==> (#[trigger] s[i]).0 != (#[trigger] s[j]).0
}

/// The map denoted by a sequence of key/value pairs; a later pair shadows an
/// earlier one with the same key.
pub open spec fn map_of<V>(s: Seq<(u64, V)>) -> Map<u64, V>
    decreases s.len(),
{
    if s.len() == 0 {
        Map::empty()
    } else {
        map_of(s.drop_last()).insert(s.last().0, s.last().1)
    }
}

/// A key is in the denoted map exactly when some pair carries it.
proof fn lemma_map_of_dom<V>(s: Seq<(u64, V)>, k: u64)
    ensures
        map_of(s).contains_key(k) <==> exists|i: int| 0 <= i < s.len() && (#[trigger] s[i]).0 == k,
    decreases s.len(),
{
    if s.len() > 0 {
        lemma_map_of_dom(s.drop_last(), k);
        if s.last().0 == k {
            assert(s[s.len() - 1].0 == k);
        } else if map_of(s).contains_key(k) {
            let i = choose|i: int| 0 <= i < s.drop_last().len() && (#[trigger] s.drop_last()[i]).0 == k;
            assert(s[i].0 == k);
        } else if exists|i: int| 0 <= i < s.len() && (#[trigger] s[i]).0 == k {
            let i = choose|i: int| 0 <= i < s.len() && (#[trigger] s[i]).0 == k;
            assert(s.drop_last()[i].0 == k);
        }
    }
}

/// A pair whose key has no later occurrence gives the map's value at it.
proof fn lemma_map_of_index<V>(s: Seq<(u64, V)>, i: int)
    requires
        0 <= i < s.len(),
        forall|j: int| i < j < s.len() ==> (#[trigger] s[j]).0 != s[i].0,
    ensures
        map_of(s).contains_key(s[i].0),
        map_of(s)[s[i].0] == s[i].1,
    decreases s.len(),
{
    if i < s.len() - 1 {
        assert(s.drop_last()[i] == s[i]);
        lemma_map_of_index(s.drop_last(), i);
        assert(s[s.len() - 1].0 != s[i].0);
    }
}

/// Removing the pair that carries a key removes the key from the map,
/// provided keys are unique.
proof fn lemma_map_of_remove<V>(s: Seq<(u64, V)>, i: int)
    requires
        0 <= i < s.len(),
        unique_keys(s),
    ensures
        map_of(s.remove(i)) == map_of(s).remove(s[i].0),
    decreases s.len(),
{
    let k = s[i].0;
    s.remove_ensures(i);
    if i == s.len() - 1 {
        assert(s.remove(i) =~= s.drop_last());
        lemma_map_of_dom(s.drop_last(), k);
        assert(forall|j: int|
            0 <= j < s.drop_last().len() ==> (#[trigger] s.drop_last()[j]).0 != k) by {
            assert(forall|j: int| 0 <= j < s.len() - 1 ==> (#[trigger] s[j]).0 != k);
        }
        assert(map_of(s).remove(k) =~= map_of(s.drop_last()));
    } else {
        let d = s.drop_last();
        assert(s.remove(i).last() == s.last());
        assert(s.remove(i).drop_last() =~= d.remove(i));
        lemma_map_of_remove(d, i);
        assert(map_of(s.remove(i)) == map_of(d).remove(k).insert(s.last().0, s.last().1));
        assert(s.last().0 != k);
        assert(map_of(d).remove(k).insert(s.last().0, s.last().1) =~= map_of(d).insert(
            s.last().0,
            s.last().1,
        ).remove(k));
    }
}

/// An association list from `u64` keys to values, with each key held at most
/// once. Its view is the `Map` it denotes.
pub struct KvMap<V> {
    entries: Vec<(u64, V)>,
}

impl<V> View for KvMap<V> {
    type V = Map<u64, V>;

    closed spec fn view(&self) -> Map<u64, V> {
        map_of(self.entries@)
    }
}

impl<V> KvMap<V> {
    /// Keys are stored at most once; all operations keep this.
    pub closed spec fn wf(&self) -> bool {
        unique_keys(self.entries@)
    }

    /// The empty store.
    pub fn new() -> (r: KvMap<V>)
        ensures
            r.wf(),
            r@ == Map::<u64, V>::empty(),
    {
        KvMap { entries: Vec::new() }
    }

    /// Index of the pair carrying `k`, if one is held.
    fn find_index(&self, k: u64) -> (r: Option<usize>)
        ensures
            match r {
                Some(i) => i < self.entries@.len() && self.entries@[i as int].0 == k,
                None => forall|j: int|
                    0 <= j < self.entries@.len() ==> (#[trigger] self.entries@[j]).0 != k,
            },
    {
        let n = self.entries.len();
        let mut i: usize = 0;
        while i < n
            invariant
                n == self.entries@.len(),
                i <= n,
                forall|j: int| 0 <= j < i ==> (#[trigger] self.entries@[j]).0 != k,
            decreases n - i,
        {
            if self.entries[i].0 == k {
                return Some(i);
            }
            i = i + 1;
        }
        None
    }

    /// Whether a record is held under `k`.
    pub fn contains_key(&self, k: u64) -> (r: bool)
        requires
            self.wf(),
        ensures
            r == self@.contains_key(k),
    {
        let r = self.find_index(k);
        proof {
            lemma_map_of_dom(self.entries@, k);
        }
        r.is_some()
    }

    /// The record held under `k`, if any.
    pub fn get(&self, k: u64) -> (r: Option<&V>)
        requires
            self.wf(),
        ensures
            match r {
                Some(v) => self@.contains_key(k) && *v == self@[k],
                None => !self@.contains_key(k),
            },
    {
        proof {
            lemma_map_of_dom(self.entries@, k);
        }
        match self.find_index(k) {
            Some(i) => {
                proof {
                    lemma_map_of_index(self.entries@, i as int);
                }
                Some(&self.entries[i].1)
            },
            None => None,
        }
    }

    /// Stores `v` under `k`, replacing any record already held there.
    pub fn insert(&mut self, k: u64, v: V)
        requires
            old(self).wf(),
        ensures
            final(self).wf(),
            final(self)@ == old(self)@.insert(k, v),
    {
        let ghost s0 = self.entries@;
        match self.find_index(k) {
            Some(i) => {
                self.entries.remove(i);
                proof {
                    s0.remove_ensures(i as int);
                    lemma_map_of_remove(s0, i as int);
                    assert(unique_keys(self.entries@)) by {
                        assert(forall|a: int, b: int|
                            0 <= a < b < self.entries@.len() ==> (#[trigger] self.entries@[a]).0
                                != (#[trigger] self.entries@[b]).0) by {
                            assert(forall|a: int|
                                0 <= a < self.entries@.len() ==> #[trigger] self.entries@[a] == (
                                if a < i {
                                    s0[a]
                                } else {
                                    s0[a + 1]
                                }));
                        }
                    }
                    assert(forall|j: int|
                        0 <= j < self.entries@.len() ==> (#[trigger] self.entries@[j]).0 != k) by {
                        assert(forall|j: int| 0 <= j < s0.len() && j != i ==> (#[trigger] s0[j]).0 != k);
                    }
                }
            },
            None => {},
        }
        let ghost s1 = self.entries@;
        self.entries.push((k, v));
        proof {
            assert(self.entries@.drop_last() =~= s1);
            assert(map_of(self.entries@) == map_of(s1).insert(k, v));
            assert(map_of(s1).insert(k, v) =~= map_of(s0).insert(k, v));
        }
    }

    /// Drops the record held under `k`, if any.
    pub fn remove(&mut self, k: u64)
        requires
            old(self).wf(),
        ensures
            final(self).wf(),
            final(self)@ == old(self)@.remove(k),
    {
        let ghost s0 = self.entries@;
        match self.find_index(k) {
            Some(i) => {
                self.entries.remove(i);
                proof {
                    s0.remove_ensures(i as int);
                    lemma_map_of_remove(s0, i as int);
                    assert(unique_keys(self.entries@)) by {
                        assert(forall|a: int|
                            0 <= a < self.entries@.len() ==> #[trigger] self.entries@[a] == (
                            if a < i {
                                s0[a]
                            } else {
                                s0[a + 1]
                            }));
                    }
                }
            },
            None => {
                proof {
                    lemma_map_of_dom(s0, k);
                    assert(map_of(s0).remove(k) =~= map_of(s0));
                }
            },
        }
    }

    /// All held pairs, each key once, each paired with its record.
    pub fn items(&self) -> (r: &Vec<(u64, V)>)
        requires
            self.wf(),
        ensures
            forall|i: int|
                0 <= i < r@.len() ==> self@.contains_key((#[trigger] r@[i]).0) && self@[r@[i].0]
                    == r@[i].1,
            forall|k: u64| #[trigger] self@.contains_key(k) ==> exists|i: int|
                0 <= i < r@.len() && (#[trigger] r@[i]).0 == k,
            forall|i: int, j: int|
                0 <= i < j < r@.len() ==> (#[trigger] r@[i]).0 != (#[trigger] r@[j]).0,
    {
        proof {
            assert forall|i: int| 0 <= i < self.entries@.len() implies self@.contains_key(
                (#[trigger] self.entries@[i]).0,
            ) && self@[self.entries@[i].0] == self.entries@[i].1 by {
                lemma_map_of_index(self.entries@, i);
            }
            assert forall|k: u64| #[trigger] self@.contains_key(k) implies exists|i: int|
                0 <= i < self.entries@.len() && (#[trigger] self.entries@[i]).0 == k by {
                lemma_map_of_dom(self.entries@, k);
            }
        }
        &self.entries
    }
}

} // verus!
