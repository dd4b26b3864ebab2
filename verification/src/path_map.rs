//! A small map keyed by a repo's path relative to the configured root.

use vstd::prelude::*;

verus! {

/// The value stored under `k` among `e`, if any (first match).
pub open spec fn lookup<V>(e: Seq<(String, V)>, k: Seq<char>) -> Option<V>
    decreases e.len(),
{
    if e.len() == 0 {
        None
    } else if e[0].0@ == k {
        Some(e[0].1)
    } else {
        lookup(e.drop_first(), k)
    }
}

pub open spec fn keys_distinct<V>(e: Seq<(String, V)>) -> bool {
    forall|i: int, j: int| 0 <= i < j < e.len() ==> (#[trigger] e[i]).0@ != (#[trigger] e[j]).0@
}

/// With distinct keys, looking up the key of entry `i` finds that entry.
pub proof fn lemma_lookup_at<V>(e: Seq<(String, V)>, i: int)
    requires
        keys_distinct(e),
        0 <= i < e.len(),
    ensures
        lookup(e, e[i].0@) == Some(e[i].1),
    decreases i,
{
    if i > 0 {
        assert(e[0].0@ != e[i].0@);
        assert(e.drop_first()[i - 1] == e[i]);
        lemma_lookup_at(e.drop_first(), i - 1);
    }
}

/// A key that no entry has is not found.
pub proof fn lemma_lookup_absent<V>(e: Seq<(String, V)>, k: Seq<char>)
    requires
        forall|i: int| 0 <= i < e.len() ==> (#[trigger] e[i]).0@ != k,
    ensures
        lookup(e, k) is None,
    decreases e.len(),
{
    if e.len() > 0 {
        assert(e[0].0@ != k);
        assert forall|i: int| 0 <= i < e.drop_first().len() implies (
        #[trigger] e.drop_first()[i]).0@ != k by {
            assert(e.drop_first()[i] == e[i + 1]);
        }
        lemma_lookup_absent(e.drop_first(), k);
    }
}

/// A key that is found belongs to an entry, whose value is the one found.
pub proof fn lemma_lookup_found<V>(e: Seq<(String, V)>, k: Seq<char>)
    requires
        lookup(e, k) is Some,
    ensures
        exists|i: int| 0 <= i < e.len() && (#[trigger] e[i]).0@ == k && e[i].1 == lookup(e, k)->0,
    decreases e.len(),
{
    if e[0].0@ == k {
        assert(e[0].0@ == k);
    } else {
        lemma_lookup_found(e.drop_first(), k);
        let i = choose|i: int|
            0 <= i < e.drop_first().len() && (#[trigger] e.drop_first()[i]).0@ == k
                && e.drop_first()[i].1 == lookup(e.drop_first(), k)->0;
        assert(e[i + 1] == e.drop_first()[i]);
    }
}

/// Entries keyed by text, each key held once.
pub struct PathMap<V> {
    entries: Vec<(String, V)>,
}

impl<V> PathMap<V> {
    #[verifier::type_invariant]
    spec fn distinct(self) -> bool {
        keys_distinct(self.entries@)
    }

    /// The value under `k`, if any.
    pub closed spec fn get_spec(self, k: Seq<char>) -> Option<V> {
        lookup(self.entries@, k)
    }

    /// An empty map.
    pub fn new() -> (r: Self)
        ensures
            forall|k: Seq<char>| (#[trigger] r.get_spec(k)) is None,
    {
        PathMap { entries: Vec::new() }
    }

    fn find(&self, key: &str) -> (r: Option<usize>)
        ensures
            match r {
                Some(i) => i < self.entries@.len() && self.entries@[i as int].0@ == key@,
                None => forall|i: int|
                    0 <= i < self.entries@.len() ==> (#[trigger] self.entries@[i]).0@ != key@,
            },
    {
        let mut i: usize = 0;
        while i < self.entries.len()
            invariant
                i <= self.entries@.len(),
                forall|k: int| 0 <= k < i ==> (#[trigger] self.entries@[k]).0@ != key@,
            decreases self.entries@.len() - i,
        {
            if crate::text::same_text(self.entries[i].0.as_str(), key) {
                return Some(i);
            }
            i = i + 1;
        }
        None
    }

    /// The value under `key`, if any.
    pub fn get(&self, key: &str) -> (r: Option<&V>)
        ensures
            match r {
                Some(v) => self.get_spec(key@) == Some(*v),
                None => self.get_spec(key@) is None,
            },
    {
        proof {
            use_type_invariant(self);
        }
        match self.find(key) {
            Some(i) => {
                proof {
                    lemma_lookup_at(self.entries@, i as int);
                }
                Some(&self.entries[i].1)
            },
            None => {
                proof {
                    lemma_lookup_absent(self.entries@, key@);
                }
                None
            },
        }
    }

    /// Whether `key` has a value.
    pub fn contains_key(&self, key: &str) -> (r: bool)
        ensures
            r == self.get_spec(key@) is Some,
    {
        self.get(key).is_some()
    }

    /// Sets the value under `key`, replacing any earlier one.
    pub fn insert(&mut self, key: String, value: V)
        ensures
            final(self).get_spec(key@) == Some(value),
            forall|k: Seq<char>| k != key@ ==> #[trigger] final(self).get_spec(k) == old(self).get_spec(k),
    {
        proof {
            use_type_invariant(&*self);
        }
        let ghost k0 = key@;
        let ghost before = self.entries@;
        match self.find(key.as_str()) {
            Some(i) => {
                let mut entries = Vec::new();
                std::mem::swap(&mut entries, &mut self.entries);
                let ghost e = entries@;
                entries.set(i, (key, value));
                proof {
                    assert(keys_distinct(entries@)) by {
                        assert forall|a: int, b: int| 0 <= a < b < entries@.len() implies (
                        #[trigger] entries@[a]).0@ != (#[trigger] entries@[b]).0@ by {
                            if a != i && b != i {
                                assert(entries@[a] == e[a] && entries@[b] == e[b]);
                            } else if a == i {
                                assert(e[a].0@ == k0);
                                assert(entries@[b] == e[b]);
                            } else {
                                assert(e[b].0@ == k0);
                                assert(entries@[a] == e[a]);
                            }
                        }
                    }
                    lemma_lookup_at(entries@, i as int);
                    assert forall|k: Seq<char>| k != k0 implies #[trigger] lookup(entries@, k)
                        == lookup(e, k) by {
                        if lookup(e, k) is Some {
                            lemma_lookup_found(e, k);
                            let j = choose|j: int|
                                0 <= j < e.len() && (#[trigger] e[j]).0@ == k && e[j].1 == lookup(
                                    e,
                                    k,
                                )->0;
                            assert(j != i);
                            assert(entries@[j] == e[j]);
                            lemma_lookup_at(entries@, j);
                            lemma_lookup_at(e, j);
                        } else {
                            assert forall|j: int| 0 <= j < entries@.len() implies (
                            #[trigger] entries@[j]).0@ != k by {
                                if j != i {
                                    assert(entries@[j] == e[j]);
                                    if e[j].0@ == k {
                                        lemma_lookup_at(e, j);
                                    }
                                }
                            }
                            lemma_lookup_absent(entries@, k);
                        }
                    }
                }
                self.entries = entries;
            },
            None => {
                let mut entries = Vec::new();
                std::mem::swap(&mut entries, &mut self.entries);
                let ghost e = entries@;
                entries.push((key, value));
                proof {
                    assert(keys_distinct(entries@)) by {
                        assert forall|a: int, b: int| 0 <= a < b < entries@.len() implies (
                        #[trigger] entries@[a]).0@ != (#[trigger] entries@[b]).0@ by {
                            assert(entries@[a] == e[a]);
                            if b < e.len() {
                                assert(entries@[b] == e[b]);
                            }
                        }
                    }
                    lemma_lookup_at(entries@, e.len() as int);
                    assert forall|k: Seq<char>| k != k0 implies #[trigger] lookup(entries@, k)
                        == lookup(e, k) by {
                        if lookup(e, k) is Some {
                            lemma_lookup_found(e, k);
                            let j = choose|j: int|
                                0 <= j < e.len() && (#[trigger] e[j]).0@ == k && e[j].1 == lookup(
                                    e,
                                    k,
                                )->0;
                            assert(entries@[j] == e[j]);
                            lemma_lookup_at(entries@, j);
                            lemma_lookup_at(e, j);
                        } else {
                            assert forall|j: int| 0 <= j < entries@.len() implies (
                            #[trigger] entries@[j]).0@ != k by {
                                if j < e.len() {
                                    assert(entries@[j] == e[j]);
                                    if e[j].0@ == k {
                                        lemma_lookup_at(e, j);
                                    }
                                }
                            }
                            lemma_lookup_absent(entries@, k);
                        }
                    }
                }
                self.entries = entries;
            },
        }
    }

    /// The keys, each once, in insertion order.
    pub fn keys(&self) -> (r: Vec<String>)
        ensures
            crate::text::views(r@).no_duplicates(),
            forall|k: Seq<char>|
                crate::text::views(r@).contains(k) <==> (#[trigger] self.get_spec(k)) is Some,
    {
        proof {
            use_type_invariant(self);
        }
        let mut r: Vec<String> = Vec::new();
        let mut i: usize = 0;
        while i < self.entries.len()
            invariant
                i <= self.entries@.len(),
                r@.len() == i,
                forall|k: int| 0 <= k < i ==> #[trigger] r@[k]@ == self.entries@[k].0@,
            decreases self.entries@.len() - i,
        {
            r.push(self.entries[i].0.clone());
            i = i + 1;
        }
        let ghost ks = crate::text::views(r@);
        let ghost e = self.entries@;
        proof {
            assert(ks.len() == e.len());
            assert forall|k: Seq<char>| ks.contains(k) implies (#[trigger] self.get_spec(k)) is Some by {
                let i = choose|i: int| 0 <= i < ks.len() && ks[i] == k;
                assert(ks[i] == r@[i]@);
                lemma_lookup_at(e, i);
            }
            assert forall|k: Seq<char>| (#[trigger] self.get_spec(k)) is Some implies ks.contains(k) by {
                lemma_lookup_found(e, k);
                let i = choose|i: int|
                    0 <= i < e.len() && (#[trigger] e[i]).0@ == k && e[i].1 == lookup(e, k)->0;
                assert(ks[i] == r@[i]@);
            }
            assert forall|i: int, j: int|
                0 <= i < ks.len() && 0 <= j < ks.len() && i != j implies ks[i] != ks[j] by {
                assert(ks[i] == r@[i]@ && ks[j] == r@[j]@);
                if i < j {
                    assert(e[i].0@ != e[j].0@);
                } else {
                    assert(e[j].0@ != e[i].0@);
                }
            }
        }
        r
    }
}

impl<V: Clone> Clone for PathMap<V> {
    /// A copy with the same keys, each value cloned.
    fn clone(&self) -> (r: Self)
        ensures
            forall|k: Seq<char>|
                match (#[trigger] r.get_spec(k), self.get_spec(k)) {
                    (Some(a), Some(b)) => cloned::<V>(b, a),
                    (None, None) => true,
                    _ => false,
                },
    {
        proof {
            use_type_invariant(self);
        }
        let mut entries: Vec<(String, V)> = Vec::new();
        let mut i: usize = 0;
        let ghost e = self.entries@;
        while i < self.entries.len()
            invariant
                e == self.entries@,
                keys_distinct(e),
                i <= e.len(),
                entries@.len() == i,
                forall|k: int| 0 <= k < i ==> #[trigger] entries@[k].0@ == e[k].0@,
                forall|k: int| 0 <= k < i ==> cloned::<V>(e[k].1, #[trigger] entries@[k].1),
            decreases e.len() - i,
        {
            let key = self.entries[i].0.clone();
            let value = self.entries[i].1.clone();
            entries.push((key, value));
            i = i + 1;
        }
        let ghost c = entries@;
        proof {
            assert(keys_distinct(c)) by {
                assert forall|a: int, b: int| 0 <= a < b < c.len() implies (#[trigger] c[a]).0@
                    != (#[trigger] c[b]).0@ by {
                    assert(e[a].0@ != e[b].0@);
                }
            }
        }
        let r = PathMap { entries };
        proof {
            assert forall|k: Seq<char>|
                match (#[trigger] r.get_spec(k), self.get_spec(k)) {
                    (Some(a), Some(b)) => cloned::<V>(b, a),
                    (None, None) => true,
                    _ => false,
                } by {
                if lookup(e, k) is Some {
                    lemma_lookup_found(e, k);
                    let j = choose|j: int| 0 <= j < e.len() && (#[trigger] e[j]).0@ == k && e[j].1 == lookup(e, k)->0;
                    lemma_lookup_at(c, j);
                } else if lookup(c, k) is Some {
                    lemma_lookup_found(c, k);
                    let j = choose|j: int| 0 <= j < c.len() && (#[trigger] c[j]).0@ == k && c[j].1 == lookup(c, k)->0;
                    lemma_lookup_at(e, j);
                }
            }
        }
        r
    }
}

} // verus!
