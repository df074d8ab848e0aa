//! Maps from paths, told apart by their components.

use crate::path::{components, FsPath};
use vstd::prelude::*;

verus! {

/// A map from paths. No two keys have the same components.
pub struct PathMap<V> {
    entries: Vec<(FsPath, V)>,
}

impl<V: View> View for PathMap<V> {
    type V = Map<Seq<Seq<u8>>, V::V>;

    closed spec fn view(&self) -> Map<Seq<Seq<u8>>, V::V> {
        Map::new(
            |k: Seq<Seq<u8>>| exists|i: int| 0 <= i < self.size() && #[trigger] self.key(i) == k,
            |k: Seq<Seq<u8>>|
                self.value(choose|i: int| 0 <= i < self.size() && #[trigger] self.key(i) == k),
        )
    }
}

impl<V: View> PathMap<V> {
    /// How many entries the map has.
    pub closed spec fn size(&self) -> nat {
        self.entries@.len()
    }

    /// The path of entry `i`.
    pub closed spec fn path(&self, i: int) -> Seq<u8> {
        self.entries[i].0@
    }

    /// The key of entry `i`.
    pub open spec fn key(&self, i: int) -> Seq<Seq<u8>> {
        components(self.path(i))
    }

    /// The value of entry `i`.
    pub closed spec fn value(&self, i: int) -> V::V {
        self.entries[i].1@
    }

    /// No two keys have the same components.
    pub closed spec fn wf(&self) -> bool {
        forall|i: int, j: int|
            0 <= i < j < self.size() ==> #[trigger] self.key(i) != #[trigger] self.key(j)
    }

    /// The entries are the map.
    pub proof fn lemma_entries(&self)
        requires
            self.wf(),
        ensures
            forall|i: int|
                0 <= i < self.size() ==> self@.contains_key(#[trigger] self.key(i))
                    && self@[self.key(i)] == self.value(i),
            forall|k: Seq<Seq<u8>>| #[trigger]
                self@.contains_key(k) ==> exists|i: int|
                    0 <= i < self.size() && #[trigger] self.key(i) == k,
            forall|i: int, j: int|
                0 <= i < self.size() && 0 <= j < self.size() && #[trigger] self.key(i)
                    == #[trigger] self.key(j) ==> i == j,
    {
        assert forall|i: int, j: int|
            0 <= i < self.size() && 0 <= j < self.size() && #[trigger] self.key(i)
                == #[trigger] self.key(j) implies i == j by {
            if i < j {
                assert(self.key(i) != self.key(j));
            }
            if j < i {
                assert(self.key(j) != self.key(i));
            }
        }
        assert forall|i: int| 0 <= i < self.size() implies self@.contains_key(
            #[trigger] self.key(i),
        ) && self@[self.key(i)] == self.value(i) by {
            let k = self.key(i);
            let j = choose|j: int| 0 <= j < self.size() && #[trigger] self.key(j) == k;
            assert(self.key(j) == self.key(i));
        }
    }

    /// The empty map.
    pub fn new() -> (m: PathMap<V>)
        ensures
            m.wf(),
            m.size() == 0,
            m@ == Map::<Seq<Seq<u8>>, V::V>::empty(),
    {
        let m = PathMap { entries: Vec::new() };
        assert(m@ =~= Map::<Seq<Seq<u8>>, V::V>::empty());
        m
    }

    /// How many entries the map has.
    pub fn len(&self) -> (n: usize)
        requires
            self.wf(),
        ensures
            n == self.size(),
            self@.dom().finite(),
            self@.dom().len() == n,
    {
        proof {
            self.lemma_len();
        }
        self.entries.len()
    }

    /// Whether the map has no entries.
    pub fn is_empty(&self) -> (yes: bool)
        requires
            self.wf(),
        ensures
            yes == (self@ == Map::<Seq<Seq<u8>>, V::V>::empty()),
    {
        proof {
            self.lemma_entries();
            if self.size() == 0 {
                assert(self@ =~= Map::<Seq<Seq<u8>>, V::V>::empty());
            } else {
                assert(self@.contains_key(self.key(0)));
            }
        }
        self.entries.len() == 0
    }

    proof fn lemma_len(&self)
        requires
            self.wf(),
        ensures
            self@.dom().finite(),
            self@.dom().len() == self.size(),
    {
        self.lemma_entries();
        let keys = Seq::new(self.size(), |i: int| self.key(i));
        assert forall|i: int, j: int|
            0 <= i < keys.len() && 0 <= j < keys.len() && i != j implies keys[i] != keys[j] by {
            assert(self.key(i) == keys[i] && self.key(j) == keys[j]);
        }
        keys.unique_seq_to_set();
        assert(self@.dom() =~= keys.to_set()) by {
            assert forall|k: Seq<Seq<u8>>| self@.dom().contains(k) <==> keys.to_set().contains(
                k,
            ) by {
                if self@.dom().contains(k) {
                    let i = choose|i: int| 0 <= i < self.size() && #[trigger] self.key(i) == k;
                    assert(keys[i] == k);
                }
                if keys.to_set().contains(k) {
                    let i = choose|i: int| 0 <= i < keys.len() && keys[i] == k;
                    assert(self.key(i) == k);
                }
            }
        }
        vstd::seq_lib::seq_to_set_is_finite(keys);
    }

    /// Entry `i`: its path and its value.
    pub fn entry(&self, i: usize) -> (e: (&FsPath, &V))
        requires
            i < self.size(),
        ensures
            e.0@ == self.path(i as int),
            e.1@ == self.value(i as int),
    {
        (&self.entries[i].0, &self.entries[i].1)
    }

    /// The place of a path's entry.
    fn find(&self, p: &FsPath) -> (at: Option<usize>)
        requires
            self.wf(),
        ensures
            match at {
                Some(i) => i < self.size() && self.key(i as int) == components(p@),
                None => !self@.contains_key(components(p@)),
            },
    {
        let mut i: usize = 0;
        while i < self.entries.len()
            invariant
                i <= self.size(),
                self.size() == self.entries.len(),
                forall|j: int| 0 <= j < i ==> #[trigger] self.key(j) != components(p@),
            decreases self.entries.len() - i,
        {
            if self.entries[i].0.same(p) {
                return Some(i);
            }
            assert(self.key(i as int) != components(p@));
            i += 1;
        }
        None
    }

    /// The value of a path.
    pub fn get(&self, p: &FsPath) -> (v: Option<&V>)
        requires
            self.wf(),
        ensures
            match v {
                Some(x) => self@.contains_key(components(p@)) && x@ == self@[components(p@)],
                None => !self@.contains_key(components(p@)),
            },
    {
        proof {
            self.lemma_entries();
        }
        match self.find(p) {
            Some(i) => Some(&self.entries[i].1),
            None => None,
        }
    }

    /// Gives a path a value. A key that is there stays as it is written.
    #[verifier::spinoff_prover]
    pub fn insert(&mut self, p: &FsPath, v: V)
        requires
            old(self).wf(),
        ensures
            final(self).wf(),
            final(self)@ == old(self)@.insert(components(p@), v@),
    {
        let ghost k = components(p@);
        let ghost n = old(self).size() as int;
        let ghost mut at = n;
        match self.find(p) {
            Some(i) => {
                let key = self.entries[i].0.clone();
                self.entries.set(i, (key, v));
                proof {
                    at = i as int;
                }
            },
            None => {
                self.entries.push((p.clone(), v));
            },
        }
        proof {
            old(self).lemma_entries();
            assert(self.key(at) == k);
            assert forall|j: int| 0 <= j < self.size() && j != at implies #[trigger] self.key(j)
                == old(self).key(j) && self.value(j) == old(self).value(j) by {}
            assert forall|a: int, b: int| 0 <= a < b < self.size() implies #[trigger] self.key(a)
                != #[trigger] self.key(b) by {
                if a != at && b != at {
                    assert(old(self).key(a) != old(self).key(b));
                } else if at < n {
                    assert(old(self).key(at) == k);
                } else {
                    assert(old(self)@.contains_key(old(self).key(a)));
                }
            }
            self.lemma_entries();
            let then = old(self)@.insert(k, v@);
            assert forall|x: Seq<Seq<u8>>| self@.contains_key(x) <==> then.contains_key(x) by {
                if self@.contains_key(x) {
                    let i = choose|i: int| 0 <= i < self.size() && #[trigger] self.key(i) == x;
                    if i != at {
                        assert(old(self)@.contains_key(old(self).key(i)));
                    }
                }
                if then.contains_key(x) && x != k {
                    let i = choose|i: int|
                        0 <= i < old(self).size() && #[trigger] old(self).key(i) == x;
                    assert(i != at);
                    assert(self@.contains_key(self.key(i)));
                }
                assert(self@.contains_key(self.key(at)));
            }
            assert forall|x: Seq<Seq<u8>>| self@.contains_key(x) implies self@[x] == then[x] by {
                let i = choose|i: int| 0 <= i < self.size() && #[trigger] self.key(i) == x;
                assert(self@[self.key(i)] == self.value(i));
                if i != at {
                    assert(old(self)@[old(self).key(i)] == old(self).value(i));
                    assert(self.key(i) != self.key(at)) by {
                        if self.key(i) == self.key(at) {
                            assert(i == at);
                        }
                    }
                }
            }
            assert(self@ =~= then);
        }
    }

    /// Takes out a path, and gives the value that it had.
    #[verifier::spinoff_prover]
    pub fn remove(&mut self, p: &FsPath) -> (v: Option<V>)
        requires
            old(self).wf(),
        ensures
            final(self).wf(),
            final(self)@ == old(self)@.remove(components(p@)),
            match v {
                Some(x) => old(self)@.contains_key(components(p@)) && x@ == old(
                    self,
                )@[components(p@)],
                None => !old(self)@.contains_key(components(p@)),
            },
    {
        let ghost k = components(p@);
        proof {
            old(self).lemma_entries();
        }
        match self.find(p) {
            Some(i) => {
                let gone = self.entries.remove(i);
                proof {
                    let at = i as int;
                    assert forall|j: int| 0 <= j < self.size() implies #[trigger] self.key(j)
                        == old(self).key(if j < at { j } else { j + 1 }) && self.value(j)
                        == old(self).value(if j < at { j } else { j + 1 }) by {}
                    assert forall|a: int, b: int| 0 <= a < b < self.size() implies #[trigger] self.key(
                        a,
                    ) != #[trigger] self.key(b) by {
                        let a2 = if a < at { a } else { a + 1 };
                        let b2 = if b < at { b } else { b + 1 };
                        assert(old(self).key(a2) != old(self).key(b2));
                    }
                    self.lemma_entries();
                    let then = old(self)@.remove(k);
                    assert forall|x: Seq<Seq<u8>>| self@.contains_key(x) <==> then.contains_key(
                        x,
                    ) by {
                        if self@.contains_key(x) {
                            let j = choose|j: int|
                                0 <= j < self.size() && #[trigger] self.key(j) == x;
                            let j2 = if j < at { j } else { j + 1 };
                            assert(old(self)@.contains_key(old(self).key(j2)));
                            if x == k {
                                assert(old(self).key(j2) == old(self).key(at));
                            }
                        }
                        if then.contains_key(x) {
                            let j = choose|j: int|
                                0 <= j < old(self).size() && #[trigger] old(self).key(j) == x;
                            let j2 = if j < at { j } else { j - 1 };
                            assert(self@.contains_key(self.key(j2)));
                        }
                    }
                    assert forall|x: Seq<Seq<u8>>| self@.contains_key(x) implies self@[x]
                        == then[x] by {
                        let j = choose|j: int|
                            0 <= j < self.size() && #[trigger] self.key(j) == x;
                        let j2 = if j < at { j } else { j + 1 };
                        assert(self@[self.key(j)] == self.value(j));
                        assert(old(self)@[old(self).key(j2)] == old(self).value(j2));
                    }
                    assert(self@ =~= then);
                }
                Some(gone.1)
            },
            None => {
                assert(self@ =~= old(self)@.remove(k));
                None
            },
        }
    }
}

} // verus!
