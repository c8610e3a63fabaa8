//! A map keyed by strings that remembers the order in which keys were first
//! inserted. No key occurs twice.
use vstd::prelude::*;

use crate::text::str_eq;

verus! {

/// The character sequences of a sequence of strings.
pub open spec fn strs(v: Seq<String>) -> Seq<Seq<char>> {
    v.map_values(|s: String| s@)
}

/// A string-keyed map whose keys are kept in insertion order.
#[derive(Debug)]
pub struct StrMap<V> {
    entries: Vec<(String, V)>,
}

impl<V> StrMap<V> {
    /// The keys, in insertion order.
    pub closed spec fn keys(&self) -> Seq<Seq<char>> {
        self.entries@.map_values(|e: (String, V)| e.0@)
    }

    /// The values, in the order of their keys.
    pub closed spec fn vals(&self) -> Seq<V> {
        self.entries@.map_values(|e: (String, V)| e.1)
    }

    /// No key occurs twice.
    #[verifier::type_invariant]
    pub closed spec fn inv(&self) -> bool {
        self.keys().no_duplicates()
    }

    /// The value stored under `k`, if any.
    pub open spec fn lookup(&self, k: Seq<char>) -> Option<V> {
        if self.keys().contains(k) {
            Some(self.vals()[self.keys().index_of(k)])
        } else {
            None
        }
    }

    /// The map as a mathematical map.
    pub open spec fn as_map(self) -> Map<Seq<char>, V> {
        Map::new(|k: Seq<char>| self.keys().contains(k), |k: Seq<char>| self.lookup(k)->0)
    }

    /// What the invariant gives: distinct keys, one value per key.
    pub proof fn lemma_inv(&self)
        requires
            self.inv(),
        ensures
            self.keys().no_duplicates(),
            self.keys().len() == self.vals().len(),
            forall|i: int|
                0 <= i < self.keys().len() ==> #[trigger] self.lookup(self.keys()[i]) == Some(
                    self.vals()[i],
                ),
    {
        assert forall|i: int| 0 <= i < self.keys().len() implies #[trigger] self.lookup(
            self.keys()[i],
        ) == Some(self.vals()[i]) by {
            assert(self.keys().contains(self.keys()[i]));
            let j = self.keys().index_of(self.keys()[i]);
            assert(self.keys()[j] == self.keys()[i]);
        }
    }

    /// `new` is `old` with `v` stored under `k`: an existing key keeps its
    /// position, a new one goes last.
    pub open spec fn is_insert(old: Self, new: Self, k: Seq<char>, v: V) -> bool {
        &&& old.keys().contains(k) ==> new.keys() == old.keys() && new.vals() == old.vals().update(
            old.keys().index_of(k),
            v,
        )
        &&& !old.keys().contains(k) ==> new.keys() == old.keys().push(k) && new.vals()
            == old.vals().push(v)
    }

    /// After storing `v` under `k`, `k` holds `v` and every other key keeps
    /// its value.
    pub proof fn lemma_insert_lookup(old: Self, new: Self, k: Seq<char>, v: V)
        requires
            old.inv(),
            Self::is_insert(old, new, k, v),
        ensures
            new.lookup(k) == Some(v),
            forall|q: Seq<char>| q != k ==> #[trigger] new.lookup(q) == old.lookup(q),
            new.keys().no_duplicates(),
            new.keys().len() == new.vals().len(),
    {
        old.lemma_inv();
        let ok = old.keys();
        if ok.contains(k) {
            let i = ok.index_of(k);
            assert(ok[i] == k);
            assert forall|q: Seq<char>| q != k implies #[trigger] new.lookup(q) == old.lookup(q) by {
                if ok.contains(q) {
                    let j = ok.index_of(q);
                    assert(ok[j] == q);
                    assert(j != i);
                }
            }
        } else {
            let nk = new.keys();
            assert(nk[ok.len() as int] == k);
            assert forall|a: int, b: int|
                0 <= a < nk.len() && 0 <= b < nk.len() && a != b implies nk[a] != nk[b] by {
                if a < ok.len() && b < ok.len() {
                } else if a == ok.len() {
                    assert(ok[b] != k);
                } else {
                    assert(ok[a] != k);
                }
            }
            assert(nk.contains(k));
            let i = nk.index_of(k);
            assert(nk[i] == k);
            assert(i == ok.len());
            assert forall|q: Seq<char>| q != k implies #[trigger] new.lookup(q) == old.lookup(q) by {
                if ok.contains(q) {
                    let j = ok.index_of(q);
                    assert(ok[j] == q);
                    assert(nk[j] == q);
                    assert(nk.contains(q));
                    let j2 = nk.index_of(q);
                    assert(nk[j2] == q);
                    assert(j2 == j);
                } else {
                    assert(!nk.contains(q)) by {
                        if nk.contains(q) {
                            let j2 = nk.index_of(q);
                            assert(nk[j2] == q);
                            assert(j2 < ok.len());
                            assert(ok[j2] == q);
                        }
                    }
                }
            }
        }
    }

    /// An empty map.
    pub fn new() -> (m: Self)
        ensures
            m.keys() == Seq::<Seq<char>>::empty(),
            m.vals() == Seq::<V>::empty(),
    {
        let m = StrMap { entries: Vec::new() };
        proof {
            assert(m.keys() =~= Seq::<Seq<char>>::empty());
            assert(m.vals() =~= Seq::<V>::empty());
        }
        m
    }

    /// The number of keys.
    pub fn len(&self) -> (n: usize)
        ensures
            n == self.keys().len(),
            n == self.vals().len(),
            self.keys().no_duplicates(),
    {
        proof {
            use_type_invariant(self);
        }
        self.entries.len()
    }

    /// The key at position `i`.
    pub fn key_at(&self, i: usize) -> (k: &String)
        requires
            i < self.keys().len(),
        ensures
            k@ == self.keys()[i as int],
    {
        &self.entries[i].0
    }

    /// The value at position `i`.
    pub fn value_at(&self, i: usize) -> (v: &V)
        requires
            i < self.keys().len(),
        ensures
            *v == self.vals()[i as int],
    {
        &self.entries[i].1
    }

    /// The position of `k` among the keys, if it is one.
    pub fn position(&self, k: &str) -> (r: Option<usize>)
        ensures
            match r {
                Some(i) => i < self.keys().len() && self.keys()[i as int] == k@
                    && self.keys().index_of(k@) == i,
                None => !self.keys().contains(k@),
            },
    {
        proof {
            use_type_invariant(self);
        }
        let mut i: usize = 0;
        while i < self.entries.len()
            invariant
                i <= self.entries.len(),
                self.keys().no_duplicates(),
                forall|j: int| 0 <= j < i ==> self.keys()[j] != k@,
            decreases self.entries.len() - i,
        {
            if str_eq(self.entries[i].0.as_str(), k) {
                proof {
                    assert(self.keys()[i as int] == k@);
                    assert(self.keys().contains(k@));
                    let j = self.keys().index_of(k@);
                    assert(self.keys()[j] == k@);
                    assert(self.keys().no_duplicates());
                    assert(j == i as int);
                }
                return Some(i);
            }
            i = i + 1;
        }
        None
    }

    /// Whether `k` is a key.
    pub fn contains_key(&self, k: &str) -> (r: bool)
        ensures
            r == self.keys().contains(k@),
    {
        self.position(k).is_some()
    }

    /// The value stored under `k`, if any.
    pub fn get(&self, k: &str) -> (r: Option<&V>)
        ensures
            match r {
                Some(v) => self.lookup(k@) == Some(*v),
                None => self.lookup(k@) is None,
            },
    {
        match self.position(k) {
            Some(i) => Some(&self.entries[i].1),
            None => None,
        }
    }

    /// Stores `v` under `k`; an existing key keeps its position.
    pub fn insert(&mut self, k: String, v: V)
        ensures
            old(self).keys().contains(k@) ==> final(self).keys() == old(self).keys()
                && final(self).vals() == old(self).vals().update(old(self).keys().index_of(k@), v),
            !old(self).keys().contains(k@) ==> final(self).keys() == old(self).keys().push(k@)
                && final(self).vals() == old(self).vals().push(v),
            Self::is_insert(*old(self), *final(self), k@, v),
            final(self).lookup(k@) == Some(v),
            forall|q: Seq<char>| q != k@ ==> #[trigger] final(self).lookup(q) == old(self).lookup(q),
            final(self).as_map() == old(self).as_map().insert(k@, v),
    {
        proof {
            use_type_invariant(&*self);
        }
        let pos = self.position(k.as_str());
        let ghost old_keys = self.keys();
        let ghost old_vals = self.vals();
        let ghost kv = k@;
        let mut e: Vec<(String, V)> = Vec::new();
        std::mem::swap(&mut e, &mut self.entries);
        assert(e@.map_values(|x: (String, V)| x.0@) == old_keys);
        assert(e@.map_values(|x: (String, V)| x.1) == old_vals);
        match pos {
            Some(i) => {
                e.set(i, (k, v));
                proof {
                    assert(e@.map_values(|x: (String, V)| x.0@) =~= old_keys);
                    assert(e@.map_values(|x: (String, V)| x.1) =~= old_vals.update(i as int, v));
                }
            },
            None => {
                e.push((k, v));
                proof {
                    let nk = e@.map_values(|x: (String, V)| x.0@);
                    assert(nk =~= old_keys.push(kv));
                    assert(e@.map_values(|x: (String, V)| x.1) =~= old_vals.push(v));
                    assert forall|a: int, b: int|
                        0 <= a < nk.len() && 0 <= b < nk.len() && a != b implies nk[a]
                        != nk[b] by {
                        if a < old_keys.len() && b < old_keys.len() {
                        } else if a == old_keys.len() {
                            assert(old_keys[b] != kv);
                        } else {
                            assert(old_keys[a] != kv);
                        }
                    }
                }
            },
        }
        self.entries = e;
        proof {
            Self::lemma_insert_lookup(*old(self), *self, kv, v);
            assert forall|q: Seq<char>| self.keys().contains(q) == (old(self).keys().contains(q)
                || q == kv) by {
                if q != kv {
                    assert(self.lookup(q) == old(self).lookup(q));
                }
            }
            assert(self.as_map() =~= old(self).as_map().insert(kv, v));
        }
    }
}


impl<V> StrMap<V> {
    /// Removes `k` and its value, if present; the other keys keep their
    /// order.
    pub fn remove(&mut self, k: &str) -> (r: Option<V>)
        ensures
            match r {
                Some(v) => old(self).keys().contains(k@) && old(self).lookup(k@) == Some(v)
                    && final(self).keys() == old(self).keys().remove(old(self).keys().index_of(k@))
                    && final(self).vals() == old(self).vals().remove(
                    old(self).keys().index_of(k@),
                ),
                None => !old(self).keys().contains(k@) && *final(self) == *old(self),
            },
            final(self).lookup(k@) is None,
            forall|q: Seq<char>| q != k@ ==> #[trigger] final(self).lookup(q) == old(self).lookup(q),
            final(self).as_map() == old(self).as_map().remove(k@),
    {
        proof {
            use_type_invariant(&*self);
            self.lemma_inv();
        }
        match self.position(k) {
            None => {
                proof {
                    assert(self.as_map() =~= old(self).as_map().remove(k@));
                }
                None
            },
            Some(i) => {
                let ghost ok = self.keys();
                let ghost ov = self.vals();
                let mut e: Vec<(String, V)> = Vec::new();
                std::mem::swap(&mut e, &mut self.entries);
                assert(e@.map_values(|x: (String, V)| x.0@) == ok);
                assert(e@.map_values(|x: (String, V)| x.1) == ov);
                let (_, v) = e.remove(i);
                let ghost nk = e@.map_values(|x: (String, V)| x.0@);
                proof {
                    assert(nk =~= ok.remove(i as int));
                    assert(e@.map_values(|x: (String, V)| x.1) =~= ov.remove(i as int));
                    assert forall|a: int, b: int|
                        0 <= a < nk.len() && 0 <= b < nk.len() && a != b implies nk[a] != nk[b] by {
                        let a2 = if a < i { a } else { a + 1 };
                        let b2 = if b < i { b } else { b + 1 };
                        assert(nk[a] == ok[a2]);
                        assert(nk[b] == ok[b2]);
                    }
                }
                self.entries = e;
                proof {
                    assert(!nk.contains(k@)) by {
                        if nk.contains(k@) {
                            let j = nk.index_of(k@);
                            let j2 = if j < i { j } else { j + 1 };
                            assert(ok[j2] == k@);
                        }
                    }
                    assert forall|q: Seq<char>| q != k@ implies #[trigger] self.lookup(q) == old(
                        self,
                    ).lookup(q) by {
                        if ok.contains(q) {
                            let j = ok.index_of(q);
                            assert(ok[j] == q);
                            assert(j != i);
                            let j1 = if j < i { j } else { j - 1 };
                            assert(nk[j1] == q);
                            assert(nk.contains(q));
                            let j3 = nk.index_of(q);
                            assert(nk[j3] == q);
                            assert(j3 == j1);
                        } else {
                            assert(!nk.contains(q)) by {
                                if nk.contains(q) {
                                    let j = nk.index_of(q);
                                    let j2 = if j < i { j } else { j + 1 };
                                    assert(ok[j2] == q);
                                }
                            }
                        }
                    }
                    assert(ok[i as int] == k@);
                    assert forall|q: Seq<char>| self.keys().contains(q) == (old(self).keys().contains(
                        q,
                    ) && q != k@) by {
                        if q != k@ {
                            assert(self.lookup(q) == old(self).lookup(q));
                        }
                    }
                    assert(self.as_map() =~= old(self).as_map().remove(k@));
                }
                Some(v)
            },
        }
    }
}

} // verus!
