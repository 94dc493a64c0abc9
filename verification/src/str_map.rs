//! A map keyed by strings that keeps its entries in insertion order.
use vstd::prelude::*;

verus! {

/// No key occurs twice among the pairs.
pub open spec fn keys_unique<V>(p: Seq<(Seq<char>, V)>) -> bool {
    forall|i: int, j: int| 0 <= i < p.len() && 0 <= j < p.len() && i != j ==> #[trigger] p[i].0 != #[trigger] p[j].0
}

/// The position of key `k` among the pairs, or -1.
pub open spec fn key_index<V>(p: Seq<(Seq<char>, V)>, k: Seq<char>) -> int
    decreases p.len(),
{
    if p.len() == 0 {
        -1
    } else if p.last().0 == k {
        p.len() - 1
    } else {
        key_index(p.drop_last(), k)
    }
}

/// The value stored under key `k`.
pub open spec fn lookup<V>(p: Seq<(Seq<char>, V)>, k: Seq<char>) -> Option<V> {
    if key_index(p, k) >= 0 {
        Some(p[key_index(p, k)].1)
    } else {
        None
    }
}

/// The pairs after storing `v` under `k`: an existing key keeps its place,
/// a new key goes last.
pub open spec fn pairs_insert<V>(p: Seq<(Seq<char>, V)>, k: Seq<char>, v: V) -> Seq<(Seq<char>, V)> {
    if key_index(p, k) >= 0 {
        p.update(key_index(p, k), (k, v))
    } else {
        p.push((k, v))
    }
}

/// The pairs after removing key `k`; the others keep their order.
pub open spec fn pairs_remove<V>(p: Seq<(Seq<char>, V)>, k: Seq<char>) -> Seq<(Seq<char>, V)> {
    if key_index(p, k) >= 0 {
        p.remove(key_index(p, k))
    } else {
        p
    }
}

/// The keys of the pairs, in order.
pub open spec fn pair_keys<V>(p: Seq<(Seq<char>, V)>) -> Seq<Seq<char>> {
    p.map_values(|e: (Seq<char>, V)| e.0)
}

pub proof fn lemma_key_index<V>(p: Seq<(Seq<char>, V)>, k: Seq<char>)
    ensures
        -1 <= key_index(p, k) < p.len(),
        key_index(p, k) >= 0 ==> p[key_index(p, k)].0 == k,
        key_index(p, k) == -1 ==> forall|i: int| 0 <= i < p.len() ==> #[trigger] p[i].0 != k,
        keys_unique(p) ==> forall|i: int| 0 <= i < p.len() && #[trigger] p[i].0 == k ==> i == key_index(p, k),
    decreases p.len(),
{
    if p.len() > 0 {
        let q = p.drop_last();
        lemma_key_index(q, k);
        assert forall|i: int| 0 <= i < p.len() - 1 implies #[trigger] q[i] == p[i] by {}
        if keys_unique(p) {
            assert(keys_unique(q)) by {
                assert forall|i: int, j: int|
                    0 <= i < q.len() && 0 <= j < q.len() && i != j implies #[trigger] q[i].0
                    != #[trigger] q[j].0 by {
                    assert(p[i].0 != p[j].0);
                }
            }
        }
        if p.last().0 == k {
            if keys_unique(p) {
                assert forall|i: int| 0 <= i < p.len() && #[trigger] p[i].0 == k implies i == key_index(p, k) by {
                    if i != p.len() - 1 {
                        assert(p[i].0 != p[p.len() - 1].0);
                    }
                }
            }
        } else {
            assert forall|i: int| 0 <= i < p.len() && #[trigger] p[i].0 == k implies i < p.len() - 1 && q[i].0 == k by {}
        }
    }
}

/// Storing under a key and reading any key back: the stored value under that
/// key, the old value under every other key, and no key occurs twice.
pub proof fn lemma_insert<V>(p: Seq<(Seq<char>, V)>, k: Seq<char>, v: V)
    requires
        keys_unique(p),
    ensures
        keys_unique(pairs_insert(p, k, v)),
        forall|k2: Seq<char>| #[trigger] lookup(pairs_insert(p, k, v), k2) == if k2 == k {
            Some(v)
        } else {
            lookup(p, k2)
        },
{
    let q = pairs_insert(p, k, v);
    lemma_key_index(p, k);
    assert(keys_unique(q)) by {
        assert forall|i: int, j: int| 0 <= i < q.len() && 0 <= j < q.len() && i != j implies #[trigger] q[i].0
            != #[trigger] q[j].0 by {
            if key_index(p, k) >= 0 {
                assert(p[i].0 != p[j].0);
            } else {
                if i < p.len() && j < p.len() {
                    assert(p[i].0 != p[j].0);
                }
            }
        }
    }
    assert forall|k2: Seq<char>| #[trigger] lookup(q, k2) == if k2 == k {
        Some(v)
    } else {
        lookup(p, k2)
    } by {
        lemma_key_index(p, k2);
        lemma_key_index(q, k2);
        if k2 == k {
            if key_index(p, k) >= 0 {
                assert(q[key_index(p, k)].0 == k);
            } else {
                assert(q[p.len() as int].0 == k);
            }
        } else {
            if key_index(p, k2) >= 0 {
                assert(q[key_index(p, k2)].0 == k2);
            }
            if key_index(q, k2) >= 0 {
                let j = key_index(q, k2);
                if j < p.len() {
                    assert(p[j].0 == k2);
                }
            }
        }
    }
}

/// Removing a key: it is then absent, every other key keeps its value, and no
/// key occurs twice.
pub proof fn lemma_remove<V>(p: Seq<(Seq<char>, V)>, k: Seq<char>)
    requires
        keys_unique(p),
    ensures
        keys_unique(pairs_remove(p, k)),
        forall|k2: Seq<char>| #[trigger] lookup(pairs_remove(p, k), k2) == if k2 == k {
            None
        } else {
            lookup(p, k2)
        },
{
    let q = pairs_remove(p, k);
    lemma_key_index(p, k);
    let idx = key_index(p, k);
    assert forall|i: int| 0 <= i < q.len() implies #[trigger] q[i] == if idx >= 0 && i >= idx {
        p[i + 1]
    } else {
        p[i]
    } by {}
    assert(keys_unique(q)) by {
        assert forall|i: int, j: int| 0 <= i < q.len() && 0 <= j < q.len() && i != j implies #[trigger] q[i].0
            != #[trigger] q[j].0 by {
            let pi = if idx >= 0 && i >= idx { i + 1 } else { i };
            let pj = if idx >= 0 && j >= idx { j + 1 } else { j };
            assert(p[pi].0 != p[pj].0);
        }
    }
    assert forall|k2: Seq<char>| #[trigger] lookup(q, k2) == if k2 == k {
        None
    } else {
        lookup(p, k2)
    } by {
        lemma_key_index(p, k2);
        lemma_key_index(q, k2);
        if key_index(q, k2) >= 0 {
            let j = key_index(q, k2);
            let pj = if idx >= 0 && j >= idx { j + 1 } else { j };
            assert(p[pj].0 == k2);
            assert(q[j] == p[pj]);
        }
        if k2 != k && key_index(p, k2) >= 0 {
            let i = key_index(p, k2);
            if idx >= 0 {
                assert(i != idx);
                let qi = if i > idx { i - 1 } else { i };
                assert(q[qi] == p[i]);
            } else {
                assert(q[i] == p[i]);
            }
        }
    }
}

/// The pairs with each value mapped through `f`.
pub open spec fn map_vals<V, W>(p: Seq<(Seq<char>, V)>, f: spec_fn(V) -> W) -> Seq<(Seq<char>, W)> {
    p.map_values(|e: (Seq<char>, V)| (e.0, f(e.1)))
}

/// The pairs of a map of strings, values taken by their characters.
pub open spec fn string_pairs(p: Seq<(Seq<char>, String)>) -> Seq<(Seq<char>, Seq<char>)> {
    map_vals(p, |s: String| s@)
}

pub proof fn lemma_map_vals_index<V, W>(p: Seq<(Seq<char>, V)>, f: spec_fn(V) -> W, k: Seq<char>)
    ensures
        key_index(map_vals(p, f), k) == key_index(p, k),
    decreases p.len(),
{
    if p.len() > 0 {
        assert(map_vals(p, f).drop_last() =~= map_vals(p.drop_last(), f));
        lemma_map_vals_index(p.drop_last(), f, k);
    }
}

/// Mapping the values commutes with storing, removing and looking up.
pub proof fn lemma_map_vals<V, W>(p: Seq<(Seq<char>, V)>, f: spec_fn(V) -> W, k: Seq<char>, v: V)
    ensures
        map_vals(pairs_insert(p, k, v), f) == pairs_insert(map_vals(p, f), k, f(v)),
        map_vals(pairs_remove(p, k), f) == pairs_remove(map_vals(p, f), k),
        lookup(map_vals(p, f), k) == match lookup(p, k) {
            Some(x) => Some(f(x)),
            None => None,
        },
{
    lemma_map_vals_index(p, f, k);
    lemma_key_index(p, k);
    assert(map_vals(pairs_insert(p, k, v), f) =~= pairs_insert(map_vals(p, f), k, f(v)));
    assert(map_vals(pairs_remove(p, k), f) =~= pairs_remove(map_vals(p, f), k));
}

/// A map from strings to values that keeps its entries in insertion order;
/// no key occurs twice.
#[derive(Debug)]
pub struct StrMap<V> {
    entries: Vec<(String, V)>,
}

impl<V> View for StrMap<V> {
    type V = Seq<(Seq<char>, V)>;

    closed spec fn view(&self) -> Seq<(Seq<char>, V)> {
        self.entries@.map_values(|e: (String, V)| (e.0@, e.1))
    }
}

impl<V> Default for StrMap<V> {
    /// The map with no entries.
    fn default() -> (m: Self)
        ensures
            m@ == Seq::<(Seq<char>, V)>::empty(),
    {
        StrMap::new()
    }
}

impl<V: Clone> Clone for StrMap<V> {
    /// A copy with the same keys in the same order; each value is cloned.
    fn clone(&self) -> (r: Self)
        ensures
            pair_keys(r@) == pair_keys(self@),
    {
        proof {
            use_type_invariant(self);
        }
        let mut entries: Vec<(String, V)> = Vec::new();
        let mut i: usize = 0;
        while i < self.entries.len()
            invariant
                i <= self.entries@.len(),
                entries@.len() == i,
                keys_unique(self@),
                self@.len() == self.entries@.len(),
                forall|j: int| 0 <= j < i ==> (#[trigger] entries@[j]).0@ == self.entries@[j].0@,
            decreases self.entries.len() - i,
        {
            let k = self.entries[i].0.clone();
            let v = self.entries[i].1.clone();
            entries.push((k, v));
            i = i + 1;
        }
        let ghost rv = entries@.map_values(|e: (String, V)| (e.0@, e.1));
        assert(pair_keys(rv) =~= pair_keys(self@)) by {
            assert forall|j: int| 0 <= j < self@.len() implies #[trigger] pair_keys(rv)[j] == pair_keys(self@)[j] by {
                assert(rv[j].0 == entries@[j].0@);
                assert(self@[j].0 == self.entries@[j].0@);
            }
        }
        assert(keys_unique(rv)) by {
            assert forall|a: int, b: int| 0 <= a < rv.len() && 0 <= b < rv.len() && a != b implies #[trigger] rv[a].0
                != #[trigger] rv[b].0 by {
                assert(pair_keys(rv)[a] == pair_keys(self@)[a]);
                assert(pair_keys(rv)[b] == pair_keys(self@)[b]);
                assert(self@[a].0 != self@[b].0);
            }
        }
        let r = StrMap { entries };
        r
    }
}

impl<V> StrMap<V> {
    #[verifier::type_invariant]
    spec fn keys_distinct(self) -> bool {
        keys_unique(self@)
    }

    /// The map with no entries.
    pub fn new() -> (m: Self)
        ensures
            m@ == Seq::<(Seq<char>, V)>::empty(),
    {
        let m = StrMap { entries: Vec::new() };
        assert(m@ =~= Seq::<(Seq<char>, V)>::empty());
        m
    }

    /// The number of entries; no key occurs twice among them.
    pub fn len(&self) -> (n: usize)
        ensures
            n == self@.len(),
            keys_unique(self@),
    {
        proof {
            use_type_invariant(self);
        }
        self.entries.len()
    }

    pub fn is_empty(&self) -> (b: bool)
        ensures
            b == (self@.len() == 0),
    {
        self.entries.len() == 0
    }

    /// The key of the `i`-th entry.
    pub fn key_at(&self, i: usize) -> (k: &String)
        requires
            i < self@.len(),
        ensures
            k@ == self@[i as int].0,
    {
        &self.entries[i].0
    }

    /// The value of the `i`-th entry.
    pub fn value_at(&self, i: usize) -> (v: &V)
        requires
            i < self@.len(),
        ensures
            *v == self@[i as int].1,
    {
        &self.entries[i].1
    }

    /// The position of a key, if present.
    fn position(&self, key: &str) -> (r: Option<usize>)
        ensures
            match r {
                Some(i) => i == key_index(self@, key@) && i < self@.len(),
                None => key_index(self@, key@) == -1,
            },
    {
        proof {
            use_type_invariant(self);
            lemma_key_index(self@, key@);
        }
        let k = key.to_owned();
        let mut i: usize = 0;
        while i < self.entries.len()
            invariant
                k@ == key@,
                keys_unique(self@),
                i <= self@.len(),
                self@.len() == self.entries@.len(),
                forall|j: int| 0 <= j < i ==> #[trigger] self@[j].0 != key@,
            decreases self.entries.len() - i,
        {
            assert(self@[i as int].0 == self.entries@[i as int].0@);
            if self.entries[i].0 == k {
                proof {
                    lemma_key_index(self@, key@);
                }
                return Some(i);
            }
            i = i + 1;
        }
        None
    }

    /// The value stored under a key.
    pub fn get(&self, key: &str) -> (r: Option<&V>)
        ensures
            match r {
                Some(v) => lookup(self@, key@) == Some(*v),
                None => lookup(self@, key@) is None,
            },
    {
        match self.position(key) {
            Some(i) => Some(&self.entries[i].1),
            None => None,
        }
    }

    /// Whether a key is present.
    pub fn contains_key(&self, key: &str) -> (b: bool)
        ensures
            b == (lookup(self@, key@) is Some),
    {
        self.position(key).is_some()
    }

    /// Stores a value under a key and returns the value it replaces.
    pub fn insert(&mut self, key: String, value: V) -> (old_v: Option<V>)
        ensures
            final(self)@ == pairs_insert(old(self)@, key@, value),
            old_v == lookup(old(self)@, key@),
    {
        proof {
            use_type_invariant(&*self);
            lemma_insert(self@, key@, value);
            lemma_key_index(self@, key@);
        }
        let ghost v0 = self@;
        let pos = self.position(key.as_str());
        let mut entries: Vec<(String, V)> = Vec::new();
        std::mem::swap(&mut entries, &mut self.entries);
        match pos {
            Some(i) => {
                let old_entry = entries.remove(i);
                entries.insert(i, (key, value));
                assert(entries@.map_values(|e: (String, V)| (e.0@, e.1)) =~= pairs_insert(v0, key@, value));
                self.entries = entries;
                assert(self@ =~= pairs_insert(v0, key@, value));
                Some(old_entry.1)
            },
            None => {
                entries.push((key, value));
                assert(entries@.map_values(|e: (String, V)| (e.0@, e.1)) =~= pairs_insert(v0, key@, value));
                self.entries = entries;
                assert(self@ =~= pairs_insert(v0, key@, value));
                None
            },
        }
    }

    /// Removes a key and returns the value it held.
    pub fn remove(&mut self, key: &str) -> (old_v: Option<V>)
        ensures
            final(self)@ == pairs_remove(old(self)@, key@),
            old_v == lookup(old(self)@, key@),
    {
        proof {
            use_type_invariant(&*self);
            lemma_remove(self@, key@);
            lemma_key_index(self@, key@);
        }
        let ghost v0 = self@;
        match self.position(key) {
            Some(i) => {
                let mut entries: Vec<(String, V)> = Vec::new();
                std::mem::swap(&mut entries, &mut self.entries);
                let old_entry = entries.remove(i);
                assert(entries@.map_values(|e: (String, V)| (e.0@, e.1)) =~= pairs_remove(v0, key@));
                self.entries = entries;
                assert(self@ =~= pairs_remove(v0, key@));
                Some(old_entry.1)
            },
            None => None,
        }
    }
}

} // verus!
