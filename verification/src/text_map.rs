//! A map keyed by text, kept as a list of entries whose keys are distinct.

use vstd::prelude::*;
use crate::text::text_eq;

verus! {

/// A finite map from texts to values.
pub struct TextMap<V> {
    entries: Vec<(String, V)>,
}

/// The keys of a list of entries, as character sequences.
pub open spec fn keys_of<V>(entries: Seq<(String, V)>) -> Seq<Seq<char>> {
    entries.map_values(|e: (String, V)| e.0@)
}

/// The map that a list of entries describes.
pub open spec fn map_of<V>(entries: Seq<(String, V)>) -> Map<Seq<char>, V> {
    Map::new(
        |k: Seq<char>| keys_of(entries).contains(k),
        |k: Seq<char>| entries[keys_of(entries).index_of(k)].1,
    )
}

proof fn lemma_map_len<V>(entries: Seq<(String, V)>)
    requires
        keys_of(entries).no_duplicates(),
    ensures
        keys_of(entries).len() == map_of(entries).len(),
        keys_of(entries).to_set() == map_of(entries).dom(),
        map_of(entries).dom().finite(),
{
    broadcast use vstd::seq_lib::seq_to_set_is_finite;
    let ks = keys_of(entries);
    assert(map_of(entries).dom() =~= ks.to_set());
    ks.unique_seq_to_set();
}

impl<V> TextMap<V> {
    /// No key occurs twice.
    #[verifier::type_invariant]
    spec fn distinct_keys(self) -> bool {
        keys_of(self.entries@).no_duplicates()
    }

    /// The keys in the order in which the entries are stored.
    pub closed spec fn key_seq(self) -> Seq<Seq<char>> {
        keys_of(self.entries@)
    }

    pub closed spec fn spec_map(self) -> Map<Seq<char>, V> {
        map_of(self.entries@)
    }

    /// The empty map.
    pub fn new() -> (m: Self)
        ensures
            m@ == Map::<Seq<char>, V>::empty(),
    {
        let m = TextMap { entries: Vec::new() };
        assert(m@ =~= Map::<Seq<char>, V>::empty());
        m
    }

    fn find(&self, key: &str) -> (r: Option<usize>)
        ensures
            r matches Some(i) ==> i < self.entries@.len() && self.entries@[i as int].0@ == key@
                && keys_of(self.entries@).index_of(key@) == i,
            r is None ==> !keys_of(self.entries@).contains(key@),
            r is Some == self@.contains_key(key@),
            r matches Some(i) ==> self@[key@] == self.entries@[i as int].1,
    {
        proof {
            use_type_invariant(self);
        }
        let n = self.entries.len();
        let mut i: usize = 0;
        while i < n
            invariant
                n == self.entries@.len(),
                i <= n,
                keys_of(self.entries@).no_duplicates(),
                forall|j: int| 0 <= j < i ==> self.entries@[j].0@ != key@,
            decreases n - i,
        {
            if text_eq(self.entries[i].0.as_str(), key) {
                proof {
                    let ks = keys_of(self.entries@);
                    assert(ks[i as int] == key@);
                    assert(ks.contains(key@));
                    let k = ks.index_of(key@);
                    assert(ks[k] == key@);
                    assert(k == i as int);
                    assert(self@.contains_key(key@));
                }
                return Some(i);
            }
            i += 1;
        }
        proof {
            let ks = keys_of(self.entries@);
            assert forall|j: int| 0 <= j < ks.len() implies ks[j] != key@ by {
                assert(ks[j] == self.entries@[j].0@);
            }
        }
        None
    }

    /// The number of keys.
    pub fn len(&self) -> (r: usize)
        ensures
            r == self@.len(),
    {
        proof {
            use_type_invariant(self);
            lemma_map_len(self.entries@);
        }
        self.entries.len()
    }

    /// Whether the map has no key.
    pub fn is_empty(&self) -> (r: bool)
        ensures
            r == (self@.len() == 0),
            r == (self@ == Map::<Seq<char>, V>::empty()),
    {
        proof {
            use_type_invariant(self);
            lemma_map_len(self.entries@);
            if self.entries@.len() == 0 {
                assert(self@ =~= Map::<Seq<char>, V>::empty());
            }
            if self@ == Map::<Seq<char>, V>::empty() {
                assert(self@.dom() =~= Set::<Seq<char>>::empty());
            }
        }
        self.entries.len() == 0
    }

    /// Whether `key` has a value.
    pub fn contains_key(&self, key: &str) -> (r: bool)
        ensures
            r == self@.contains_key(key@),
    {
        self.find(key).is_some()
    }

    /// The value of `key`, if it has one.
    pub fn get(&self, key: &str) -> (r: Option<&V>)
        ensures
            r is Some == self@.contains_key(key@),
            r matches Some(v) ==> *v == self@[key@],
    {
        match self.find(key) {
            Some(i) => Some(&self.entries[i].1),
            None => None,
        }
    }

    /// The entry stored at position `i` (for walking all entries).
    pub fn entry_at(&self, i: usize) -> (r: (&String, &V))
        requires
            i < self@.len(),
        ensures
            self@.contains_key(r.0@),
            self@[r.0@] == *r.1,
            r.0@ == self.key_seq()[i as int],
    {
        proof {
            use_type_invariant(self);
            lemma_map_len(self.entries@);
            let ks = keys_of(self.entries@);
            assert(ks[i as int] == self.entries@[i as int].0@);
            assert(ks.contains(ks[i as int]));
            let k = ks.index_of(ks[i as int]);
            assert(k == i as int);
        }
        let e = &self.entries[i];
        (&e.0, &e.1)
    }

    /// The keys, each once, in storage order.
    pub fn keys(&self) -> (r: Vec<String>)
        ensures
            r@.len() == self@.len(),
            forall|i: int| 0 <= i < r@.len() ==> self@.contains_key(#[trigger] r@[i]@),
            forall|k: Seq<char>| self@.contains_key(k) ==> exists|i: int| 0 <= i < r@.len() && #[trigger] r@[i]@ == k,
            forall|a: int, b: int| 0 <= a < b < r@.len() ==> r@[a]@ != r@[b]@,
    {
        proof {
            use_type_invariant(self);
            lemma_map_len(self.entries@);
        }
        let n = self.entries.len();
        let mut r: Vec<String> = Vec::new();
        for i in 0..n
            invariant
                n == self.entries@.len(),
                keys_of(self.entries@).no_duplicates(),
                r@.len() == i,
                forall|j: int| 0 <= j < i ==> #[trigger] r@[j]@ == keys_of(self.entries@)[j],
        {
            r.push(self.entries[i].0.clone());
        }
        proof {
            let ks = keys_of(self.entries@);
            assert forall|k: Seq<char>| self@.contains_key(k) implies exists|i: int| 0 <= i < r@.len() && #[trigger] r@[i]@ == k by {
                let i = ks.index_of(k);
                assert(r@[i]@ == k);
            }
            assert forall|i: int| 0 <= i < r@.len() implies self@.contains_key(#[trigger] r@[i]@) by {
                assert(ks[i] == r@[i]@);
            }
        }
        r
    }

    /// Gives `key` the value `value`, replacing any value it had.
    pub fn insert(&mut self, key: String, value: V)
        ensures
            final(self)@ == old(self)@.insert(key@, value),
    {
        proof {
            use_type_invariant(&*self);
        }
        let ghost old_entries = self.entries@;
        match self.find(key.as_str()) {
            Some(i) => {
                let ghost k = key@;
                let ghost old_self = *self;
                let mut entries: Vec<(String, V)> = Vec::new();
                std::mem::swap(&mut entries, &mut self.entries);
                entries.set(i, (key, value));
                proof {
                    assert(keys_of(entries@) =~= keys_of(old_entries));
                }
                self.entries = entries;
                proof {
                    let ks = keys_of(self.entries@);
                    assert forall|x: Seq<char>| #![auto] self@.contains_key(x) == old_self@.insert(k, value).contains_key(x) by {}
                    assert forall|x: Seq<char>| #![auto] self@.contains_key(x) implies self@[x] == old_self@.insert(k, value)[x] by {
                        let p = ks.index_of(x);
                        if x != k {
                            assert(p != i);
                        }
                    }
                    assert(self@ =~= old_self@.insert(k, value));
                }
            },
            None => {
                let ghost k = key@;
                let ghost old_self = *self;
                let mut entries: Vec<(String, V)> = Vec::new();
                std::mem::swap(&mut entries, &mut self.entries);
                entries.push((key, value));
                proof {
                    assert(keys_of(entries@) =~= keys_of(old_entries).push(k));
                    assert forall|a: int, b: int| 0 <= a < b < keys_of(entries@).len() implies keys_of(entries@)[a] != keys_of(entries@)[b] by {
                        if b == keys_of(entries@).len() - 1 {
                            assert(keys_of(old_entries).contains(keys_of(entries@)[a]) || a >= keys_of(old_entries).len());
                        }
                    }
                }
                self.entries = entries;
                proof {
                    let ks = keys_of(self.entries@);
                    let oks = keys_of(old_entries);
                    assert forall|x: Seq<char>| #![auto] self@.contains_key(x) == old_self@.insert(k, value).contains_key(x) by {
                        if oks.contains(x) {
                            let p = oks.index_of(x);
                            assert(ks[p] == x);
                        }
                        if ks.contains(x) && x != k {
                            let p = ks.index_of(x);
                            assert(p < oks.len());
                            assert(oks[p] == x);
                        }
                        if x == k {
                            assert(ks[oks.len() as int] == k);
                        }
                    }
                    assert forall|x: Seq<char>| #![auto] self@.contains_key(x) implies self@[x] == old_self@.insert(k, value)[x] by {
                        let p = ks.index_of(x);
                        if x == k {
                            assert(ks[oks.len() as int] == k);
                            assert(p == oks.len());
                        } else {
                            assert(p < oks.len());
                            assert(oks[p] == x);
                            let q = oks.index_of(x);
                            assert(ks[q] == x);
                            assert(q == p);
                        }
                    }
                    assert(self@ =~= old_self@.insert(k, value));
                }
            },
        }
    }

    /// Removes `key`, handing back the value it had.
    pub fn remove(&mut self, key: &str) -> (r: Option<V>)
        ensures
            final(self)@ == old(self)@.remove(key@),
            r is Some == old(self)@.contains_key(key@),
            r matches Some(v) ==> v == old(self)@[key@],
    {
        proof {
            use_type_invariant(&*self);
        }
        let ghost old_entries = self.entries@;
        let ghost old_self = *self;
        match self.find(key) {
            Some(i) => {
                let mut entries: Vec<(String, V)> = Vec::new();
                std::mem::swap(&mut entries, &mut self.entries);
                let e = entries.remove(i);
                proof {
                    let oks = keys_of(old_entries);
                    let ks = keys_of(entries@);
                    assert(ks =~= oks.remove(i as int));
                    assert forall|a: int, b: int| 0 <= a < b < ks.len() implies ks[a] != ks[b] by {
                        let a2 = if a < i { a } else { a + 1 };
                        let b2 = if b < i { b } else { b + 1 };
                        assert(ks[a] == oks[a2]);
                        assert(ks[b] == oks[b2]);
                    }
                }
                self.entries = entries;
                proof {
                    let oks = keys_of(old_entries);
                    let ks = keys_of(self.entries@);
                    let k = key@;
                    assert forall|x: Seq<char>| #![auto] self@.contains_key(x) == old_self@.remove(k).contains_key(x) by {
                        if ks.contains(x) {
                            let p = ks.index_of(x);
                            let p2 = if p < i { p } else { p + 1 };
                            assert(oks[p2] == x);
                        }
                        if oks.contains(x) && x != k {
                            let p = oks.index_of(x);
                            assert(p != i);
                            let p2 = if p < i { p } else { p - 1 };
                            assert(ks[p2] == x);
                        }
                    }
                    assert forall|x: Seq<char>| #![auto] self@.contains_key(x) implies self@[x] == old_self@.remove(k)[x] by {
                        let p = ks.index_of(x);
                        let p2 = if p < i { p } else { p + 1 };
                        assert(oks[p2] == x);
                        let q = oks.index_of(x);
                        assert(q == p2);
                    }
                    assert(self@ =~= old_self@.remove(k));
                }
                Some(e.1)
            },
            None => {
                proof {
                    assert(old_self@.remove(key@) =~= old_self@);
                }
                None
            },
        }
    }
}

impl<V> View for TextMap<V> {
    type V = Map<Seq<char>, V>;

    open spec fn view(&self) -> Map<Seq<char>, V> {
        self.spec_map()
    }
}

} // verus!
