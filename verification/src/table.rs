use vstd::prelude::*;
use crate::hash::Key;

verus! {

/// A keyed associative store: a list of key/value pairs in which no key occurs
/// twice. Its view is the map from each key to its value.
pub struct Table<K, V> {
    entries: Vec<(K, V)>,
}

/// No key occurs at two positions.
pub open spec fn distinct_keys<K, V>(s: Seq<(K, V)>) -> bool {
    forall|i: int, j: int| 0 <= i < s.len() && 0 <= j < s.len() && i != j ==> s[i].0 != s[j].0
}

/// The key `k` occurs at some position.
pub open spec fn has_key<K, V>(s: Seq<(K, V)>, k: K) -> bool {
    exists|i: int| 0 <= i < s.len() && #[trigger] s[i].0 == k
}

/// A position at which `k` occurs, where it occurs.
pub open spec fn index_of<K, V>(s: Seq<(K, V)>, k: K) -> int {
    choose|i: int| 0 <= i < s.len() && #[trigger] s[i].0 == k
}

/// The map that a list of pairs stands for.
pub open spec fn pairs_to_map<K, V>(s: Seq<(K, V)>) -> Map<K, V> {
    Map::new(|k: K| has_key(s, k), |k: K| s[index_of(s, k)].1)
}

/// In a list without a repeated key, the map sends the key at position `i` to
/// the value there.
pub proof fn lemma_entry_in_map<K, V>(s: Seq<(K, V)>, i: int)
    requires
        distinct_keys(s),
        0 <= i < s.len(),
    ensures
        pairs_to_map(s).contains_key(s[i].0),
        pairs_to_map(s)[s[i].0] == s[i].1,
        index_of(s, s[i].0) == i,
{
    assert(has_key(s, s[i].0));
    let j = index_of(s, s[i].0);
    assert(0 <= j < s.len() && s[j].0 == s[i].0);
}

/// A list without a repeated key stands for a finite map with as many keys as
/// the list has pairs.
pub proof fn lemma_map_size<K, V>(s: Seq<(K, V)>)
    requires
        distinct_keys(s),
    ensures
        pairs_to_map(s).dom().finite(),
        pairs_to_map(s).dom().len() == s.len(),
    decreases s.len(),
{
    if s.len() == 0 {
        assert(pairs_to_map(s).dom() =~= Set::<K>::empty());
    } else {
        let t = s.drop_last();
        let k = s.last().0;
        assert(distinct_keys(t)) by {
            assert forall|i: int, j: int| 0 <= i < t.len() && 0 <= j < t.len() && i != j implies t[i].0 != t[j].0 by {
                assert(s[i].0 != s[j].0);
            }
        }
        lemma_map_size(t);
        assert forall|x: K| has_key(s, x) == (has_key(t, x) || x == k) by {
            if has_key(t, x) {
                let i = index_of(t, x);
                assert(s[i].0 == x);
            }
            if x == k {
                assert(s[s.len() - 1].0 == x);
            }
            if has_key(s, x) && x != k {
                let i = index_of(s, x);
                assert(t[i].0 == x);
            }
        }
        assert(!has_key(t, k)) by {
            if has_key(t, k) {
                let i = index_of(t, k);
                assert(s[i].0 == s[s.len() - 1].0);
            }
        }
        assert(pairs_to_map(s).dom() =~= pairs_to_map(t).dom().insert(k));
    }
}

impl<K: Key, V> Table<K, V> {
    /// The pairs of the table, in the order in which it holds them.
    pub closed spec fn entries(&self) -> Seq<(K, V)> {
        self.entries@
    }

    /// The table's structural invariant.
    pub closed spec fn wf(&self) -> bool {
        distinct_keys(self.entries@)
    }

    /// The map from each key to its value.
    pub closed spec fn view(&self) -> Map<K, V> {
        pairs_to_map(self.entries@)
    }

    /// The view and the invariant, over the pairs.
    pub proof fn lemma_view(&self)
        ensures
            self@ == pairs_to_map(self.entries()),
            self.wf() == distinct_keys(self.entries()),
    {
    }

    /// The empty table.
    pub fn new() -> (t: Self)
        ensures
            t.wf(),
            t@ == Map::<K, V>::empty(),
    {
        let t = Table { entries: Vec::new() };
        assert(t@ =~= Map::<K, V>::empty());
        t
    }

    /// The number of pairs, which is the number of keys.
    pub fn len(&self) -> (n: usize)
        requires
            self.wf(),
        ensures
            n == self.entries().len(),
            self@.dom().finite(),
            n == self@.dom().len(),
    {
        proof {
            lemma_map_size(self.entries@);
        }
        self.entries.len()
    }

    /// The key at position `i`.
    pub fn key_at(&self, i: usize) -> (k: K)
        requires
            self.wf(),
            i < self.entries().len(),
        ensures
            k == self.entries()[i as int].0,
            self@.contains_key(k),
    {
        proof {
            lemma_entry_in_map(self.entries@, i as int);
        }
        self.entries[i].0
    }

    fn position(&self, key: &K) -> (r: Option<usize>)
        requires
            self.wf(),
        ensures
            match r {
                Some(i) => i < self.entries@.len() && self.entries@[i as int].0 == *key,
                None => !has_key(self.entries@, *key),
            },
    {
        let mut i: usize = 0;
        while i < self.entries.len()
            invariant
                i <= self.entries@.len(),
                forall|j: int| 0 <= j < i ==> self.entries@[j].0 != *key,
            decreases self.entries@.len() - i,
        {
            if self.entries[i].0.same(key) {
                return Some(i);
            }
            i += 1;
        }
        None
    }

    /// Whether the table holds `key`.
    pub fn contains_key(&self, key: &K) -> (b: bool)
        requires
            self.wf(),
        ensures
            b == self@.contains_key(*key),
    {
        self.position(key).is_some()
    }

    /// The value under `key`, if any.
    pub fn get(&self, key: &K) -> (r: Option<&V>)
        requires
            self.wf(),
        ensures
            match r {
                Some(v) => self@.contains_key(*key) && *v == self@[*key],
                None => !self@.contains_key(*key),
            },
    {
        match self.position(key) {
            Some(i) => {
                proof {
                    lemma_entry_in_map(self.entries@, i as int);
                }
                Some(&self.entries[i].1)
            },
            None => None,
        }
    }

    /// Puts `value` under `key`, in place of what was there.
    pub fn insert(&mut self, key: K, value: V)
        requires
            old(self).wf(),
        ensures
            final(self).wf(),
            final(self)@ == old(self)@.insert(key, value),
    {
        let ghost before = self.entries@;
        match self.position(&key) {
            Some(i) => {
                self.entries.set(i, (key, value));
                proof {
                    let after = self.entries@;
                    assert(distinct_keys(after));
                    assert forall|k: K| has_key(after, k) == (has_key(before, k) || k == key) by {
                        if has_key(before, k) {
                            let j = index_of(before, k);
                            assert(after[j].0 == k);
                        }
                        if has_key(after, k) {
                            let j = index_of(after, k);
                            assert(before[j].0 == k);
                        }
                        assert(after[i as int].0 == key);
                    }
                    assert forall|k: K| has_key(after, k) implies pairs_to_map(after)[k] == (if k == key {
                        value
                    } else {
                        pairs_to_map(before)[k]
                    }) by {
                        let j = index_of(after, k);
                        lemma_entry_in_map(after, j);
                        if k != key {
                            assert(before[j].0 == k);
                            lemma_entry_in_map(before, j);
                        } else {
                            lemma_entry_in_map(after, i as int);
                        }
                    }
                    assert(pairs_to_map(after) =~= pairs_to_map(before).insert(key, value));
                }
            },
            None => {
                self.entries.push((key, value));
                proof {
                    let after = self.entries@;
                    let n = before.len() as int;
                    assert(after[n].0 == key);
                    assert forall|a: int, b: int| 0 <= a < after.len() && 0 <= b < after.len() && a != b implies after[a].0 != after[b].0 by {
                        if a < n && b < n {
                            assert(before[a].0 != before[b].0);
                        } else if a < n {
                            assert(before[a].0 == after[a].0);
                        } else {
                            assert(before[b].0 == after[b].0);
                        }
                    }
                    assert forall|k: K| has_key(after, k) == (has_key(before, k) || k == key) by {
                        if has_key(before, k) {
                            let j = index_of(before, k);
                            assert(after[j].0 == k);
                        }
                        if has_key(after, k) {
                            let j = index_of(after, k);
                            if j < n {
                                assert(before[j].0 == k);
                            }
                        }
                    }
                    assert forall|k: K| has_key(after, k) implies pairs_to_map(after)[k] == (if k == key {
                        value
                    } else {
                        pairs_to_map(before)[k]
                    }) by {
                        let j = index_of(after, k);
                        lemma_entry_in_map(after, j);
                        if k != key {
                            assert(before[j].0 == k);
                            lemma_entry_in_map(before, j);
                        } else {
                            lemma_entry_in_map(after, n);
                        }
                    }
                    assert(pairs_to_map(after) =~= pairs_to_map(before).insert(key, value));
                }
            },
        }
    }

    /// Takes out `key` and hands back its value, if it was there.
    pub fn remove(&mut self, key: &K) -> (r: Option<V>)
        requires
            old(self).wf(),
        ensures
            final(self).wf(),
            final(self)@ == old(self)@.remove(*key),
            match r {
                Some(v) => old(self)@.contains_key(*key) && v == old(self)@[*key],
                None => !old(self)@.contains_key(*key),
            },
    {
        let ghost before = self.entries@;
        match self.position(key) {
            Some(i) => {
                proof {
                    lemma_entry_in_map(before, i as int);
                }
                let entry = self.entries.remove(i);
                proof {
                    let after = self.entries@;
                    assert(after =~= before.remove(i as int));
                    assert forall|a: int| 0 <= a < after.len() implies after[a] == before[if a < i { a } else { a + 1 }] by {}
                    assert forall|a: int, b: int| 0 <= a < after.len() && 0 <= b < after.len() && a != b implies after[a].0 != after[b].0 by {
                        let a2 = if a < i { a } else { a + 1 };
                        let b2 = if b < i { b } else { b + 1 };
                        assert(before[a2].0 != before[b2].0);
                    }
                    assert forall|k: K| has_key(after, k) == (has_key(before, k) && k != *key) by {
                        if has_key(before, k) && k != *key {
                            let j = index_of(before, k);
                            let j2 = if j < i { j } else { j - 1 };
                            assert(after[j2].0 == k);
                        }
                        if has_key(after, k) {
                            let j = index_of(after, k);
                            let j2 = if j < i { j } else { j + 1 };
                            assert(before[j2].0 == k);
                        }
                    }
                    assert forall|k: K| has_key(after, k) implies pairs_to_map(after)[k] == pairs_to_map(before)[k] by {
                        let j = index_of(after, k);
                        lemma_entry_in_map(after, j);
                        let j2 = if j < i { j } else { j + 1 };
                        assert(before[j2].0 == k);
                        lemma_entry_in_map(before, j2);
                    }
                    assert(pairs_to_map(after) =~= pairs_to_map(before).remove(*key));
                }
                Some(entry.1)
            },
            None => {
                assert(pairs_to_map(before) =~= pairs_to_map(before).remove(*key));
                None
            },
        }
    }

    /// Every key of the view occurs at some position of the list.
    pub proof fn lemma_key_has_position(&self, k: K) -> (i: int)
        requires
            self@.contains_key(k),
        ensures
            0 <= i < self.entries().len(),
            self.entries()[i].0 == k,
    {
        index_of(self.entries@, k)
    }
}

} // verus!
