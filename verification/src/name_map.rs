//! `NameMap`: a map from package names to values that keeps its entries in
//! the order in which their names were first inserted.
//!
//! npm's JSON output keys its objects by package name; this map stands for
//! those objects. Lookups compare names by their characters.

use vstd::prelude::*;
use crate::text::str_eq;

verus! {

/// The index of the first entry of `pairs` whose name is `k`, if any.
pub open spec fn first_index<V>(pairs: Seq<(Seq<char>, V)>, k: Seq<char>) -> Option<int> {
    if exists|i: int| #[trigger] is_first(pairs, k, i) {
        Some(choose|i: int| #[trigger] is_first(pairs, k, i))
    } else {
        None
    }
}

/// `i` is the position of the first entry of `pairs` named `k`.
pub open spec fn is_first<V>(pairs: Seq<(Seq<char>, V)>, k: Seq<char>, i: int) -> bool {
    &&& 0 <= i < pairs.len()
    &&& pairs[i].0 == k
    &&& forall|j: int| 0 <= j < i ==> pairs[j].0 != k
}

/// No name occurs twice among the entries.
pub open spec fn names_distinct<V>(pairs: Seq<(Seq<char>, V)>) -> bool {
    forall|i: int, j: int| 0 <= i < pairs.len() && 0 <= j < pairs.len() && i != j ==> pairs[i].0 != pairs[j].0
}

/// The value stored under `k`: that of the first entry named `k`.
pub open spec fn lookup<V>(pairs: Seq<(Seq<char>, V)>, k: Seq<char>) -> Option<V> {
    match first_index(pairs, k) {
        Some(i) => Some(pairs[i].1),
        None => None,
    }
}

/// The entries after storing `v` under `k`: the first entry named `k` is
/// replaced, or a new entry is appended at the end.
pub open spec fn stored<V>(pairs: Seq<(Seq<char>, V)>, k: Seq<char>, v: V) -> Seq<(Seq<char>, V)> {
    match first_index(pairs, k) {
        Some(i) => pairs.update(i, (k, v)),
        None => pairs.push((k, v)),
    }
}

/// The entries after removing the first entry named `k`, if any.
pub open spec fn removed<V>(pairs: Seq<(Seq<char>, V)>, k: Seq<char>) -> Seq<(Seq<char>, V)> {
    match first_index(pairs, k) {
        Some(i) => pairs.remove(i),
        None => pairs,
    }
}

/// Two positions that are both "first" for the same name are the same.
pub proof fn lemma_first_unique<V>(pairs: Seq<(Seq<char>, V)>, k: Seq<char>, i: int, j: int)
    requires
        is_first(pairs, k, i),
        is_first(pairs, k, j),
    ensures
        i == j,
{
    if i < j {
        assert(pairs[i].0 != k);
    } else if j < i {
        assert(pairs[j].0 != k);
    }
}

/// Once `i` is known to be first for `k`, `first_index` returns it.
pub proof fn lemma_first_index_is<V>(pairs: Seq<(Seq<char>, V)>, k: Seq<char>, i: int)
    requires
        is_first(pairs, k, i),
    ensures
        first_index(pairs, k) == Some(i),
{
    let c = choose|c: int| #[trigger] is_first(pairs, k, c);
    lemma_first_unique(pairs, k, c, i);
}

/// When no entry is named `k`, `first_index` returns `None`.
pub proof fn lemma_first_index_none<V>(pairs: Seq<(Seq<char>, V)>, k: Seq<char>)
    requires
        forall|j: int| 0 <= j < pairs.len() ==> pairs[j].0 != k,
    ensures
        first_index(pairs, k) == None::<int>,
{
}

/// `first_index` depends on the names of the entries only.
pub proof fn lemma_first_index_same_names<V, W>(p: Seq<(Seq<char>, V)>, q: Seq<(Seq<char>, W)>, k: Seq<char>)
    requires
        p.len() == q.len(),
        forall|i: int| 0 <= i < p.len() ==> p[i].0 == q[i].0,
    ensures
        first_index(p, k) == first_index(q, k),
{
    if exists|i: int| #[trigger] is_first(p, k, i) {
        let i = choose|i: int| #[trigger] is_first(p, k, i);
        assert(is_first(q, k, i));
        lemma_first_index_is(p, k, i);
        lemma_first_index_is(q, k, i);
    } else {
        assert forall|i: int| !#[trigger] is_first(q, k, i) by {
            if is_first(q, k, i) {
                assert(is_first(p, k, i));
            }
        }
    }
}

/// A map from names to values, in first-insertion order.
#[derive(Debug)]
pub struct NameMap<V> {
    entries: Vec<(String, V)>,
}

impl<V> NameMap<V> {
    /// The entries as (name, value) pairs, in order.
    pub closed spec fn pairs(&self) -> Seq<(Seq<char>, V)> {
        self.entries@.map_values(|e: (String, V)| (e.0@, e.1))
    }

    /// The names, in order.
    pub open spec fn names(&self) -> Seq<Seq<char>> {
        self.pairs().map_values(|e: (Seq<char>, V)| e.0)
    }

    /// The values, in order.
    pub open spec fn values(&self) -> Seq<V> {
        self.pairs().map_values(|e: (Seq<char>, V)| e.1)
    }

    /// No name occurs twice.
    pub open spec fn wf(&self) -> bool {
        names_distinct(self.pairs())
    }

    /// Every map keeps its names distinct.
    #[verifier::type_invariant]
    spec fn distinct_names(self) -> bool {
        names_distinct(self.pairs())
    }

    /// An empty map.
    pub fn new() -> (m: Self)
        ensures
            m.pairs() == Seq::<(Seq<char>, V)>::empty(),
            m.wf(),
    {
        let m = NameMap { entries: Vec::new() };
        assert(m.pairs() =~= Seq::<(Seq<char>, V)>::empty());
        m
    }

    /// The number of entries.
    pub fn len(&self) -> (n: usize)
        ensures
            n == self.pairs().len(),
            self.wf(),
    {
        proof {
            use_type_invariant(self);
        }
        self.entries.len()
    }

    /// `true` when the map has no entries.
    pub fn is_empty(&self) -> (b: bool)
        ensures
            b == (self.pairs().len() == 0),
    {
        self.entries.len() == 0
    }

    /// The name of the entry at position `i`.
    pub fn name_at(&self, i: usize) -> (r: &String)
        requires
            i < self.pairs().len(),
        ensures
            r@ == self.pairs()[i as int].0,
    {
        &self.entries[i].0
    }

    /// The value of the entry at position `i`.
    pub fn value_at(&self, i: usize) -> (r: &V)
        requires
            i < self.pairs().len(),
        ensures
            *r == self.pairs()[i as int].1,
    {
        &self.entries[i].1
    }

    /// The position of the first entry named `key`, if any.
    pub fn position(&self, key: &str) -> (r: Option<usize>)
        ensures
            match r {
                Some(i) => first_index(self.pairs(), key@) == Some(i as int),
                None => first_index(self.pairs(), key@) == None::<int>,
            },
    {
        let n = self.entries.len();
        let mut i: usize = 0;
        while i < n
            invariant
                n == self.pairs().len(),
                i <= n,
                forall|j: int| 0 <= j < i ==> self.pairs()[j].0 != key@,
            decreases n - i,
        {
            if str_eq(self.entries[i].0.as_str(), key) {
                proof {
                    lemma_first_index_is(self.pairs(), key@, i as int);
                }
                return Some(i);
            }
            i = i + 1;
        }
        proof {
            lemma_first_index_none(self.pairs(), key@);
        }
        None
    }

    /// The value stored under `key`, if any.
    pub fn get(&self, key: &str) -> (r: Option<&V>)
        ensures
            match r {
                Some(v) => lookup(self.pairs(), key@) == Some(*v),
                None => lookup(self.pairs(), key@) == None::<V>,
            },
    {
        match self.position(key) {
            Some(i) => Some(&self.entries[i].1),
            None => None,
        }
    }

    /// `true` when some entry is named `key`.
    pub fn contains_key(&self, key: &str) -> (b: bool)
        ensures
            b == (lookup(self.pairs(), key@) is Some),
    {
        self.position(key).is_some()
    }

    /// Stores `value` under `key`, replacing the value of an entry with that
    /// name, or appending a new entry.
    pub fn insert(&mut self, key: String, value: V)
        ensures
            final(self).pairs() == stored(old(self).pairs(), key@, value),
            final(self).wf(),
    {
        proof {
            use_type_invariant(&*self);
        }
        let ghost before = self.pairs();
        let found = self.position(key.as_str());
        let mut entries: Vec<(String, V)> = Vec::new();
        std::mem::swap(&mut entries, &mut self.entries);
        assert(entries@.map_values(|e: (String, V)| (e.0@, e.1)) == before);
        match found {
            Some(i) => {
                entries[i] = (key, value);
            },
            None => {
                entries.push((key, value));
            },
        }
        assert(entries@.map_values(|e: (String, V)| (e.0@, e.1)) =~= stored(before, key@, value));
        proof {
            lemma_stored_distinct(before, key@, value);
        }
        self.entries = entries;
    }

    /// Replaces the value of the entry at position `i` by `value` and
    /// returns the value it held; the entry keeps its name and position.
    pub fn replace_value(&mut self, i: usize, value: V) -> (r: V)
        requires
            i < old(self).pairs().len(),
        ensures
            r == old(self).pairs()[i as int].1,
            final(self).pairs() == old(self).pairs().update(i as int, (old(self).pairs()[i as int].0, value)),
    {
        proof {
            use_type_invariant(&*self);
        }
        let ghost before = self.pairs();
        let mut entries: Vec<(String, V)> = Vec::new();
        std::mem::swap(&mut entries, &mut self.entries);
        assert(entries@.map_values(|e: (String, V)| (e.0@, e.1)) == before);
        let (name, previous) = entries.remove(i);
        entries.insert(i, (name, value));
        let ghost after = before.update(i as int, (before[i as int].0, value));
        assert(entries@.map_values(|e: (String, V)| (e.0@, e.1)) =~= after);
        assert(names_distinct(after)) by {
            assert forall|a: int, b: int| 0 <= a < after.len() && 0 <= b < after.len() && a != b implies after[a].0 != after[b].0 by {
                assert(after[a].0 == before[a].0);
                assert(after[b].0 == before[b].0);
            }
        }
        self.entries = entries;
        previous
    }

    /// Removes the entry named `key` and returns its value, if there is one.
    pub fn remove(&mut self, key: &str) -> (r: Option<V>)
        ensures
            r == lookup(old(self).pairs(), key@),
            final(self).pairs() == removed(old(self).pairs(), key@),
            final(self).wf(),
    {
        proof {
            use_type_invariant(&*self);
        }
        let ghost before = self.pairs();
        match self.position(key) {
            Some(i) => {
                let mut entries: Vec<(String, V)> = Vec::new();
                std::mem::swap(&mut entries, &mut self.entries);
                assert(entries@.map_values(|e: (String, V)| (e.0@, e.1)) == before);
                let e = entries.remove(i);
                assert(entries@.map_values(|e: (String, V)| (e.0@, e.1)) =~= removed(before, key@));
                proof {
                    lemma_removed_distinct(before, key@);
                }
                self.entries = entries;
                Some(e.1)
            },
            None => {
                assert(removed(before, key@) == before);
                None
            },
        }
    }

}

/// Storing keeps distinct names distinct.
pub proof fn lemma_stored_distinct<V>(pairs: Seq<(Seq<char>, V)>, k: Seq<char>, v: V)
    ensures
        names_distinct(pairs) ==> names_distinct(stored(pairs, k, v)),
{
    assert(k.push('.').len() != k.len());
    lemma_stored(pairs, k, v, k.push('.'));
}

/// Removing keeps distinct names distinct.
pub proof fn lemma_removed_distinct<V>(pairs: Seq<(Seq<char>, V)>, k: Seq<char>)
    ensures
        names_distinct(pairs) ==> names_distinct(removed(pairs, k)),
{
    if names_distinct(pairs) {
        assert(k.push('.').len() != k.len());
        lemma_removed(pairs, k, k.push('.'));
    }
}

/// Storing `v` under `k` makes `v` what `k` looks up to, leaves every other
/// name's value as it was, and keeps the names distinct.
pub proof fn lemma_stored<V>(pairs: Seq<(Seq<char>, V)>, k: Seq<char>, v: V, other: Seq<char>)
    requires
        other != k,
    ensures
        lookup(stored(pairs, k, v), k) == Some(v),
        lookup(stored(pairs, k, v), other) == lookup(pairs, other),
        names_distinct(pairs) ==> names_distinct(stored(pairs, k, v)),
{
    let s = stored(pairs, k, v);
    match first_index(pairs, k) {
        Some(i) => {
            let w = choose|w: int| #[trigger] is_first(pairs, k, w);
            assert(is_first(pairs, k, w));
            assert(is_first(s, k, w));
            lemma_first_index_is(s, k, w);
            lemma_first_index_same_names(pairs, s, other);
        },
        None => {
            assert forall|j: int| 0 <= j < pairs.len() implies pairs[j].0 != k by {
                if pairs[j].0 == k {
                    lemma_exists_first(pairs, k, j);
                }
            }
            assert(is_first(s, k, pairs.len() as int));
            lemma_first_index_is(s, k, pairs.len() as int);
            if exists|j: int| #[trigger] is_first(pairs, other, j) {
                let j = choose|j: int| #[trigger] is_first(pairs, other, j);
                lemma_first_index_is(pairs, other, j);
                assert(is_first(s, other, j));
                lemma_first_index_is(s, other, j);
            } else {
                assert forall|j: int| 0 <= j < s.len() implies s[j].0 != other by {
                    if j < pairs.len() && pairs[j].0 == other {
                        lemma_exists_first(pairs, other, j);
                    }
                }
                lemma_first_index_none(s, other);
                assert forall|j: int| 0 <= j < pairs.len() implies pairs[j].0 != other by {
                    assert(s[j] == pairs[j]);
                }
                lemma_first_index_none(pairs, other);
            }
        },
    }
}

/// After removing `k`, `k` looks up to nothing, and the names that were
/// distinct stay distinct with their values.
pub proof fn lemma_removed<V>(pairs: Seq<(Seq<char>, V)>, k: Seq<char>, other: Seq<char>)
    requires
        names_distinct(pairs),
        other != k,
    ensures
        lookup(removed(pairs, k), k) == None::<V>,
        lookup(removed(pairs, k), other) == lookup(pairs, other),
        names_distinct(removed(pairs, k)),
{
    let s = removed(pairs, k);
    match first_index(pairs, k) {
        Some(i) => {
            let w = choose|w: int| #[trigger] is_first(pairs, k, w);
            assert(is_first(pairs, k, w));
            assert forall|j: int| 0 <= j < s.len() implies s[j].0 != k by {
                if j < w {
                    assert(s[j] == pairs[j]);
                } else {
                    assert(s[j] == pairs[j + 1]);
                }
            }
            lemma_first_index_none(s, k);
            if exists|j: int| #[trigger] is_first(pairs, other, j) {
                let j = choose|j: int| #[trigger] is_first(pairs, other, j);
                lemma_first_index_is(pairs, other, j);
                let t = if j < w { j } else { j - 1 };
                assert(is_first(s, other, t));
                lemma_first_index_is(s, other, t);
            } else {
                assert forall|j: int| 0 <= j < s.len() implies s[j].0 != other by {
                    let o = if j < w { j } else { j + 1 };
                    assert(s[j] == pairs[o]);
                    if pairs[o].0 == other {
                        lemma_exists_first(pairs, other, o);
                    }
                }
                lemma_first_index_none(s, other);
                assert forall|j: int| 0 <= j < pairs.len() implies pairs[j].0 != other by {
                    if pairs[j].0 == other {
                        lemma_exists_first(pairs, other, j);
                    }
                }
                lemma_first_index_none(pairs, other);
            }
            assert forall|a: int, b: int| 0 <= a < s.len() && 0 <= b < s.len() && a != b implies s[a].0 != s[b].0 by {
                let oa = if a < w { a } else { a + 1 };
                let ob = if b < w { b } else { b + 1 };
                assert(s[a] == pairs[oa]);
                assert(s[b] == pairs[ob]);
            }
        },
        None => {
            assert forall|j: int| 0 <= j < pairs.len() implies pairs[j].0 != k by {
                if pairs[j].0 == k {
                    lemma_exists_first(pairs, k, j);
                }
            }
        },
    }
}

/// Where some entry is named `k`, there is a first such entry.
pub proof fn lemma_exists_first<V>(g: Seq<(Seq<char>, V)>, k: Seq<char>, j: int)
    requires
        0 <= j < g.len(),
        g[j].0 == k,
    ensures
        exists|i: int| #[trigger] is_first(g, k, i),
    decreases j,
{
    if forall|n: int| 0 <= n < j ==> g[n].0 != k {
        assert(is_first(g, k, j));
    } else {
        let n = choose|n: int| 0 <= n < j && g[n].0 == k;
        lemma_exists_first(g, k, n);
    }
}

} // verus!
