//! Small insertion-ordered collections keyed by the view of their keys.
//!
//! `KeySet` is a set and `Dict` a map. Both keep their entries in the order
//! in which they were first inserted, and both identify a key by its view, so
//! that two keys with the same characters are the same key.
use vstd::prelude::*;

verus! {

/// A type whose values can serve as keys: they are compared, and copied, by view.
pub trait Key: View + Sized {
    /// Whether two keys have the same view.
    fn same(&self, other: &Self) -> (r: bool)
        ensures
            r == (self@ == other@),
    ;

    /// A copy with the same view.
    fn dup(&self) -> (r: Self)
        ensures
            r@ == self@,
    ;
}

impl Key for String {
    fn same(&self, other: &Self) -> (r: bool) {
        *self == *other
    }

    fn dup(&self) -> (r: Self) {
        self.clone()
    }
}

impl<A: Key, B: Key> Key for (A, B) {
    fn same(&self, other: &Self) -> (r: bool) {
        self.0.same(&other.0) && self.1.same(&other.1)
    }

    fn dup(&self) -> (r: Self) {
        (self.0.dup(), self.1.dup())
    }
}

/// No two positions of `s` hold keys with the same view.
pub open spec fn distinct_keys<K: View>(s: Seq<K>) -> bool {
    forall|i: int, j: int| 0 <= i < s.len() && 0 <= j < s.len() && i != j ==> s[i]@ != s[j]@
}

/// Some position of `s` holds a key with view `x`.
pub open spec fn seq_has<K: View>(s: Seq<K>, x: K::V) -> bool {
    exists|i: int| 0 <= i < s.len() && #[trigger] s[i]@ == x
}

/// The position of the key with view `x` in `s`, if any.
pub fn position<K: Key>(s: &Vec<K>, k: &K) -> (r: Option<usize>)
    ensures
        match r {
            Some(i) => i < s.len() && s[i as int]@ == k@ && forall|j: int|
                0 <= j < i ==> s[j]@ != k@,
            None => !seq_has(s@, k@),
        },
{
    let mut i: usize = 0;
    while i < s.len()
        invariant
            i <= s.len(),
            forall|j: int| 0 <= j < i ==> s[j]@ != k@,
        decreases s.len() - i,
    {
        if s[i].same(k) {
            return Some(i);
        }
        i = i + 1;
    }
    None
}

/// A set of keys, in insertion order.
#[derive(Debug)]
pub struct KeySet<K> {
    pub items: Vec<K>,
}

impl<K: Key> KeySet<K> {
    /// No key occurs twice.
    pub open spec fn wf(&self) -> bool {
        distinct_keys(self.items@)
    }

    /// Membership, by view.
    pub open spec fn has(&self, x: K::V) -> bool {
        seq_has(self.items@, x)
    }

    /// The set of the members' views.
    pub open spec fn as_set(&self) -> Set<K::V> {
        Set::new(|x: K::V| self.has(x))
    }

    /// An empty set.
    pub fn new() -> (r: Self)
        ensures
            r.wf(),
            r.items@.len() == 0,
            forall|x: K::V| !r.has(x),
    {
        KeySet { items: Vec::new() }
    }

    /// The number of members.
    pub fn len(&self) -> (n: usize)
        ensures
            n == self.items@.len(),
    {
        self.items.len()
    }

    /// Whether the set has no member.
    pub fn is_empty(&self) -> (r: bool)
        ensures
            r == (self.items@.len() == 0),
    {
        self.items.len() == 0
    }

    /// Whether a key with the view of `k` is a member.
    pub fn contains(&self, k: &K) -> (r: bool)
        ensures
            r == self.has(k@),
    {
        position(&self.items, k).is_some()
    }

    /// Adds `k` unless a key with the same view is present. Returns whether it was added.
    pub fn insert(&mut self, k: K) -> (added: bool)
        requires
            old(self).wf(),
        ensures
            final(self).wf(),
            added == !old(self).has(k@),
            added ==> final(self).items@ == old(self).items@.push(k),
            !added ==> final(self).items@ == old(self).items@,
            forall|x: K::V| final(self).has(x) <==> (old(self).has(x) || x == k@),
    {
        if position(&self.items, &k).is_some() {
            return false;
        }
        let ghost before = self.items@;
        self.items.push(k);
        proof {
            assert forall|x: K::V| self.has(x) <==> (seq_has(before, x) || x == k@) by {
                if seq_has(before, x) {
                    let i = choose|i: int| 0 <= i < before.len() && #[trigger] before[i]@ == x;
                    assert(self.items@[i]@ == x);
                }
                if x == k@ {
                    assert(self.items@[before.len() as int]@ == x);
                }
            }
        }
        true
    }

    /// Removes the key with the view of `k`, if present. The others keep their order.
    pub fn remove(&mut self, k: &K) -> (removed: bool)
        requires
            old(self).wf(),
        ensures
            final(self).wf(),
            removed == old(self).has(k@),
            !removed ==> final(self).items@ == old(self).items@,
            removed ==> final(self).items@.len() + 1 == old(self).items@.len(),
            forall|x: K::V| final(self).has(x) <==> (old(self).has(x) && x != k@),
    {
        match position(&self.items, k) {
            None => false,
            Some(i) => {
                let ghost before = self.items@;
                self.items.remove(i);
                proof {
                    assert(self.items@ == before.remove(i as int));
                    assert forall|x: K::V| self.has(x) <==> (seq_has(before, x) && x != k@) by {
                        if self.has(x) {
                            let j = choose|j: int|
                                0 <= j < self.items@.len() && #[trigger] self.items@[j]@ == x;
                            if j < i {
                                assert(before[j]@ == x);
                            } else {
                                assert(before[j + 1]@ == x);
                            }
                        }
                        if seq_has(before, x) && x != k@ {
                            let j = choose|j: int| 0 <= j < before.len() && #[trigger] before[j]@ == x;
                            if j < i {
                                assert(self.items@[j]@ == x);
                            } else {
                                assert(self.items@[j - 1]@ == x);
                            }
                        }
                    }
                }
                true
            },
        }
    }

    /// The member at position `i`.
    pub fn get(&self, i: usize) -> (r: &K)
        requires
            i < self.items@.len(),
        ensures
            *r == self.items@[i as int],
    {
        &self.items[i]
    }
}

/// A map from keys to values, in insertion order.
#[derive(Debug)]
pub struct Dict<K, V> {
    pub keys: Vec<K>,
    pub values: Vec<V>,
}

impl<K: Key, V> Dict<K, V> {
    /// Keys and values pair up, and no key occurs twice.
    pub open spec fn wf(&self) -> bool {
        self.keys@.len() == self.values@.len() && distinct_keys(self.keys@)
    }

    /// Whether some entry has a key with view `x`.
    pub open spec fn has_key(&self, x: K::V) -> bool {
        seq_has(self.keys@, x)
    }

    /// The position of the entry whose key has view `x`.
    pub open spec fn index_of(&self, x: K::V) -> int {
        choose|i: int| 0 <= i < self.keys@.len() && #[trigger] self.keys@[i]@ == x
    }

    /// The value stored under the key with view `x`.
    pub open spec fn value_of(&self, x: K::V) -> V {
        self.values@[self.index_of(x)]
    }

    /// In a well-formed map the position of a key is determined by its view.
    pub proof fn lemma_index_of(&self, i: int)
        requires
            self.wf(),
            0 <= i < self.keys@.len(),
        ensures
            self.has_key(self.keys@[i]@),
            self.index_of(self.keys@[i]@) == i,
            self.value_of(self.keys@[i]@) == self.values@[i],
    {
        let x = self.keys@[i]@;
        assert(self.keys@[i]@ == x);
        let j = self.index_of(x);
        assert(0 <= j < self.keys@.len() && self.keys@[j]@ == x);
    }

    /// An empty map.
    pub fn new() -> (r: Self)
        ensures
            r.wf(),
            r.keys@.len() == 0,
            forall|x: K::V| !r.has_key(x),
    {
        Dict { keys: Vec::new(), values: Vec::new() }
    }

    /// The number of entries.
    pub fn len(&self) -> (n: usize)
        requires
            self.wf(),
        ensures
            n == self.keys@.len(),
    {
        self.keys.len()
    }

    /// The position of the entry for `k`, if any.
    pub fn find(&self, k: &K) -> (r: Option<usize>)
        requires
            self.wf(),
        ensures
            match r {
                Some(i) => self.has_key(k@) && i == self.index_of(k@) && i < self.keys@.len(),
                None => !self.has_key(k@),
            },
    {
        let r = position(&self.keys, k);
        proof {
            if let Some(i) = r {
                self.lemma_index_of(i as int);
            }
        }
        r
    }

    /// Whether `k` has an entry.
    pub fn contains_key(&self, k: &K) -> (r: bool)
        requires
            self.wf(),
        ensures
            r == self.has_key(k@),
    {
        self.find(k).is_some()
    }

    /// The value stored under `k`, if any.
    pub fn get(&self, k: &K) -> (r: Option<&V>)
        requires
            self.wf(),
        ensures
            match r {
                Some(v) => self.has_key(k@) && *v == self.value_of(k@),
                None => !self.has_key(k@),
            },
    {
        match self.find(k) {
            Some(i) => Some(&self.values[i]),
            None => None,
        }
    }

    /// The key at position `i`.
    pub fn key_at(&self, i: usize) -> (r: &K)
        requires
            self.wf(),
            i < self.keys@.len(),
        ensures
            *r == self.keys@[i as int],
    {
        &self.keys[i]
    }

    /// The value at position `i`.
    pub fn value_at(&self, i: usize) -> (r: &V)
        requires
            self.wf(),
            i < self.keys@.len(),
        ensures
            *r == self.values@[i as int],
    {
        &self.values[i]
    }

    /// Stores `v` under `k`. An entry already there keeps its position and
    /// takes the new value.
    pub fn insert(&mut self, k: K, v: V)
        requires
            old(self).wf(),
        ensures
            final(self).wf(),
            forall|x: K::V| final(self).has_key(x) <==> (old(self).has_key(x) || x == k@),
            final(self).value_of(k@) == v,
            forall|x: K::V| old(self).has_key(x) && x != k@ ==> final(self).value_of(x) == old(self).value_of(x),
            old(self).has_key(k@) ==> final(self).keys@ == old(self).keys@
                && final(self).values@ == old(self).values@.update(old(self).index_of(k@), v),
            !old(self).has_key(k@) ==> final(self).keys@ == old(self).keys@.push(k)
                && final(self).values@ == old(self).values@.push(v),
    {
        let ghost before = *self;
        match self.find(&k) {
            Some(i) => {
                self.values.set(i, v);
                proof {
                    assert forall|x: K::V| before.has_key(x) && x != k@ implies self.value_of(x)
                        == before.value_of(x) by {
                        let j = before.index_of(x);
                        self.lemma_index_of(j);
                    }
                    self.lemma_index_of(i as int);
                }
            },
            None => {
                self.keys.push(k);
                self.values.push(v);
                proof {
                    let n = before.keys@.len() as int;
                    assert(self.keys@[n]@ == k@);
                    assert forall|x: K::V| self.has_key(x) <==> (before.has_key(x) || x == k@) by {
                        if before.has_key(x) {
                            let j = before.index_of(x);
                            assert(self.keys@[j]@ == x);
                        }
                    }
                    self.lemma_index_of(n);
                    assert forall|x: K::V| before.has_key(x) && x != k@ implies self.value_of(x)
                        == before.value_of(x) by {
                        let j = before.index_of(x);
                        self.lemma_index_of(j);
                    }
                }
            },
        }
    }

    /// Stores `v` under `k` unless `k` already has an entry. Returns whether it stored.
    pub fn insert_if_absent(&mut self, k: K, v: V) -> (stored: bool)
        requires
            old(self).wf(),
        ensures
            final(self).wf(),
            stored == !old(self).has_key(k@),
            !stored ==> *final(self) == *old(self),
            stored ==> final(self).keys@ == old(self).keys@.push(k) && final(self).values@ == old(
                self,
            ).values@.push(v),
            forall|x: K::V| final(self).has_key(x) <==> (old(self).has_key(x) || x == k@),
            stored ==> final(self).value_of(k@) == v,
            forall|x: K::V| old(self).has_key(x) ==> final(self).value_of(x) == old(self).value_of(x),
    {
        if self.contains_key(&k) {
            return false;
        }
        self.insert(k, v);
        true
    }
    /// Removes the entry for `k`, if there is one. The others keep their order.
    pub fn remove(&mut self, k: &K) -> (removed: bool)
        requires
            old(self).wf(),
        ensures
            final(self).wf(),
            removed == old(self).has_key(k@),
            !removed ==> final(self).keys@ == old(self).keys@ && final(self).values@ == old(
                self,
            ).values@,
            forall|x: K::V| final(self).has_key(x) <==> (old(self).has_key(x) && x != k@),
            forall|x: K::V|
                old(self).has_key(x) && x != k@ ==> final(self).value_of(x) == old(self).value_of(x),
    {
        let ghost before = *self;
        match self.find(k) {
            None => false,
            Some(i) => {
                self.keys.remove(i);
                self.values.remove(i);
                proof {
                    assert(self.keys@ == before.keys@.remove(i as int));
                    assert(self.values@ == before.values@.remove(i as int));
                    assert forall|x: K::V|
                        self.has_key(x) <==> (before.has_key(x) && x != k@) by {
                        if self.has_key(x) {
                            let j = choose|j: int|
                                0 <= j < self.keys@.len() && #[trigger] self.keys@[j]@ == x;
                            if j < i {
                                assert(before.keys@[j]@ == x);
                            } else {
                                assert(before.keys@[j + 1]@ == x);
                            }
                        }
                        if before.has_key(x) && x != k@ {
                            let j = before.index_of(x);
                            if j < i {
                                assert(self.keys@[j]@ == x);
                            } else {
                                assert(self.keys@[j - 1]@ == x);
                            }
                        }
                    }
                    assert forall|x: K::V| before.has_key(x) && x != k@ implies self.value_of(x)
                        == before.value_of(x) by {
                        let j = before.index_of(x);
                        if j < i {
                            self.lemma_index_of(j);
                        } else {
                            self.lemma_index_of(j - 1);
                        }
                    }
                }
                true
            },
        }
    }
}

impl<K: Key, V> Dict<K, V> {
    /// The map from the views of the keys to what `f` makes of the values.
    pub open spec fn map_of<A>(&self, f: spec_fn(V) -> A) -> Map<K::V, A> {
        Map::new(|x: K::V| self.has_key(x), |x: K::V| f(self.value_of(x)))
    }

    /// Storing a value under a key is inserting into the map.
    pub proof fn lemma_insert_map<A>(before: &Self, after: &Self, k: K::V, v: V, f: spec_fn(V) -> A)
        requires
            forall|x: K::V| after.has_key(x) <==> (before.has_key(x) || x == k),
            after.value_of(k) == v,
            forall|x: K::V| before.has_key(x) && x != k ==> after.value_of(x) == before.value_of(x),
        ensures
            after.map_of(f) == before.map_of(f).insert(k, f(v)),
    {
        assert(after.map_of(f) =~= before.map_of(f).insert(k, f(v)));
    }
}

/// The map of a dictionary of strings, in characters.
pub open spec fn string_map(d: Dict<String, String>) -> Map<Seq<char>, Seq<char>> {
    d.map_of(|v: String| v@)
}

/// Stores `value` under `key`, replacing what was there.
pub fn set_string(d: &mut Dict<String, String>, key: &str, value: &str)
    requires
        old(d).wf(),
    ensures
        final(d).wf(),
        string_map(*final(d)) == string_map(*old(d)).insert(key@, value@),
{
    let ghost before = *d;
    let k = String::from_str(key);
    let v = String::from_str(value);
    d.insert(k, v);
    proof {
        Dict::lemma_insert_map(&before, d, key@, v, |v: String| v@);
    }
}

} // verus!
