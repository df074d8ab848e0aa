//! Inode numbers: which path each stands for, and which number each path has.

use crate::path::{components, joined, starts_with, strip, FsPath};
use crate::path_laws::{law_joined_stripped, lemma_empty_path};
use crate::path_map::PathMap;
use std::collections::HashMap;
use vstd::prelude::*;

verus! {

broadcast use vstd::std_specs::hash::group_hash_axioms;

/// The inode number of the mount's root.
pub const ROOT_INO: u64 = 1;

/// The model of the inode numbers: the path of each number, and the number of each path
/// by its components. A number whose path was taken over by another keeps its path.
#[verifier::ext_equal]
pub struct Inodes {
    pub next: u64,
    pub paths: Map<u64, Seq<u8>>,
    pub index: Map<Seq<Seq<u8>>, u64>,
}

impl Inodes {
    /// The number that a path has stands for that path, and every number in use was
    /// given out before.
    pub open spec fn consistent(self) -> bool {
        &&& forall|k: Seq<Seq<u8>>| #[trigger]
            self.index.contains_key(k) ==> self.paths.contains_key(self.index[k]) && components(
                self.paths[self.index[k]],
            ) == k
        &&& forall|i: u64| #[trigger] self.paths.contains_key(i) ==> i < self.next
    }

    /// The numbers after a path was looked up: the number it has, or the next one.
    pub open spec fn assigned(self, rel: Seq<u8>) -> Inodes {
        if self.index.contains_key(components(rel)) {
            self
        } else {
            Inodes {
                next: (self.next + 1) as u64,
                paths: self.paths.insert(self.next, rel),
                index: self.index.insert(components(rel), self.next),
            }
        }
    }

    /// The number of a path that is looked up.
    pub open spec fn number(self, rel: Seq<u8>) -> u64 {
        if self.index.contains_key(components(rel)) {
            self.index[components(rel)]
        } else {
            self.next
        }
    }

    /// The numbers after a path was removed.
    pub open spec fn removed(self, rel: Seq<u8>) -> Inodes {
        let k = components(rel);
        if self.index.contains_key(k) {
            Inodes {
                next: self.next,
                paths: self.paths.remove(self.index[k]),
                index: self.index.remove(k),
            }
        } else {
            self
        }
    }

    /// Whether a number stands for a path that moves.
    pub open spec fn moves(self, i: u64, old_key: Seq<Seq<u8>>, is_dir: bool) -> bool {
        let k = components(self.paths[i]);
        self.paths.contains_key(i) && self.index.contains_key(k) && self.index[k] == i
            && key_moves(k, old_key, is_dir)
    }

    /// The numbers after a path was renamed; with a directory, what lies below it moves
    /// along.
    pub open spec fn renamed(self, old_rel: Seq<u8>, new_rel: Seq<u8>, is_dir: bool) -> Inodes {
        let a = components(old_rel);
        let b = components(new_rel);
        Inodes {
            next: self.next,
            paths: self.paths.map_entries(
                |i: u64, p: Seq<u8>|
                    if self.moves(i, a, is_dir) {
                        moved_path(p, old_rel, new_rel)
                    } else {
                        p
                    },
            ),
            index: Map::new(
                |k: Seq<Seq<u8>>| self.arrives(k, a, b, is_dir) || self.stays(k, a, is_dir),
                |k: Seq<Seq<u8>>|
                    if self.arrives(k, a, b, is_dir) {
                        self.index[rekeyed(k, b, a)]
                    } else {
                        self.index[k]
                    },
            ),
        }
    }

    /// Whether a renamed path comes to have these components.
    pub open spec fn arrives(
        self,
        k: Seq<Seq<u8>>,
        old_key: Seq<Seq<u8>>,
        new_key: Seq<Seq<u8>>,
        is_dir: bool,
    ) -> bool {
        new_key.is_prefix_of(k) && self.index.contains_key(rekeyed(k, new_key, old_key))
            && key_moves(rekeyed(k, new_key, old_key), old_key, is_dir)
    }

    /// Whether a path with these components is not renamed.
    pub open spec fn stays(self, k: Seq<Seq<u8>>, old_key: Seq<Seq<u8>>, is_dir: bool) -> bool {
        self.index.contains_key(k) && !key_moves(k, old_key, is_dir)
    }
}

/// Whether a path with these components is renamed along with another.
pub open spec fn key_moves(k: Seq<Seq<u8>>, old_key: Seq<Seq<u8>>, is_dir: bool) -> bool {
    k == old_key || (is_dir && old_key.is_prefix_of(k))
}

/// Components with one leading part replaced by another.
pub open spec fn rekeyed(k: Seq<Seq<u8>>, from: Seq<Seq<u8>>, to: Seq<Seq<u8>>) -> Seq<Seq<u8>> {
    to + k.skip(from.len() as int)
}

/// Where a path moves when `old_rel` becomes `new_rel`.
pub open spec fn moved_path(p: Seq<u8>, old_rel: Seq<u8>, new_rel: Seq<u8>) -> Seq<u8> {
    if components(p) == components(old_rel) {
        new_rel
    } else {
        joined(new_rel, strip(p, old_rel)->0)
    }
}

/// The numbers of a new mount: only its root has one.
pub open spec fn root_only() -> Inodes {
    Inodes {
        next: 2,
        paths: Map::empty().insert(ROOT_INO, Seq::<u8>::empty()),
        index: Map::empty().insert(Seq::<Seq<u8>>::empty(), ROOT_INO),
    }
}

/// Inode numbers.
pub struct InodeTable {
    next: u64,
    paths: HashMap<u64, FsPath>,
    index: PathMap<u64>,
}

impl View for InodeTable {
    type V = Inodes;

    closed spec fn view(&self) -> Inodes {
        Inodes {
            next: self.next,
            paths: self.paths@.map_values(|p: FsPath| p@),
            index: self.index@,
        }
    }
}

impl InodeTable {
    /// The numbers are consistent.
    pub closed spec fn wf(&self) -> bool {
        self.index.wf() && self@.consistent()
    }

    /// The numbers are consistent.
    pub proof fn lemma_consistent(&self)
        requires
            self.wf(),
        ensures
            self@.consistent(),
    {
    }

    /// The numbers of a new mount.
    pub fn new() -> (t: InodeTable)
        ensures
            t.wf(),
            t@ == root_only(),
    {
        let root = FsPath::new();
        let mut paths: HashMap<u64, FsPath> = HashMap::new();
        let mut index: PathMap<u64> = PathMap::new();
        proof {
            lemma_empty_path();
        }
        index.insert(&root, ROOT_INO);
        paths.insert(ROOT_INO, root);
        let t = InodeTable { next: ROOT_INO + 1, paths, index };
        assert(t@.paths =~= root_only().paths);
        assert(t@.index =~= root_only().index);
        t
    }

    /// The path that a number stands for.
    pub fn path(&self, ino: u64) -> (p: Option<FsPath>)
        ensures
            match p {
                Some(q) => self@.paths.contains_key(ino) && q@ == self@.paths[ino],
                None => !self@.paths.contains_key(ino),
            },
    {
        match self.paths.get(&ino) {
            Some(p) => Some(p.clone()),
            None => None,
        }
    }

    /// The number that a path has.
    pub fn find(&self, rel: &FsPath) -> (ino: Option<u64>)
        requires
            self.wf(),
        ensures
            match ino {
                Some(i) => self@.index.contains_key(components(rel@)) && i
                    == self@.index[components(rel@)],
                None => !self@.index.contains_key(components(rel@)),
            },
    {
        match self.index.get(rel) {
            Some(i) => Some(*i),
            None => None,
        }
    }

    /// Whether there is a number left to give out.
    pub fn has_room(&self) -> (yes: bool)
        ensures
            yes == (self@.next < u64::MAX),
    {
        self.next < u64::MAX
    }

    /// The number of a path; one that has none gets the next.
    pub fn get_or_assign_inode(&mut self, rel: &FsPath) -> (ino: u64)
        requires
            old(self).wf(),
            old(self)@.next < u64::MAX,
        ensures
            final(self).wf(),
            final(self)@ == old(self)@.assigned(rel@),
            ino == old(self)@.number(rel@),
    {
        if let Some(i) = self.index.get(rel) {
            return *i;
        }
        let ino = self.next;
        let ghost then = self@;
        self.next = ino + 1;
        self.paths.insert(ino, rel.clone());
        self.index.insert(rel, ino);
        proof {
            assert(self@.paths =~= then.assigned(rel@).paths);
            assert(self@.index =~= then.assigned(rel@).index);
            assert forall|k: Seq<Seq<u8>>| #[trigger]
                self@.index.contains_key(k) implies self@.paths.contains_key(self@.index[k])
                && components(self@.paths[self@.index[k]]) == k by {
                if k != components(rel@) {
                    assert(then.index.contains_key(k));
                    assert(then.paths.contains_key(then.index[k]));
                }
            }
            assert forall|i: u64| #[trigger] self@.paths.contains_key(i) implies i < self@.next by {
                if i != ino {
                    assert(then.paths.contains_key(i));
                }
            }
        }
        ino
    }

    /// Forgets a path and its number.
    pub fn remove_inode(&mut self, rel: &FsPath)
        requires
            old(self).wf(),
        ensures
            final(self).wf(),
            final(self)@ == old(self)@.removed(rel@),
    {
        let ghost then = self@;
        let ghost k = components(rel@);
        match self.index.remove(rel) {
            Some(ino) => {
                self.paths.remove(&ino);
                proof {
                    assert(ino == then.index[k]);
                    assert(self@.paths =~= then.removed(rel@).paths);
                    assert forall|x: Seq<Seq<u8>>| #[trigger]
                        self@.index.contains_key(x) implies self@.paths.contains_key(
                        self@.index[x],
                    ) && components(self@.paths[self@.index[x]]) == x by {
                        assert(then.index.contains_key(x));
                        assert(then.index.contains_key(k));
                        assert(then.index[x] != ino);
                    }
                    assert forall|i: u64| #[trigger] self@.paths.contains_key(i) implies i
                        < self@.next by {
                        assert(then.paths.contains_key(i));
                    }
                }
            },
            None => {
                assert(self@.index =~= then.index);
            },
        }
    }

    /// The entries of the index that a rename leaves alone.
    #[verifier::spinoff_prover]
    fn index_without(&self, old_rel: &FsPath, is_dir: bool) -> (rest: PathMap<u64>)
        requires
            self.wf(),
        ensures
            rest.wf(),
            forall|k: Seq<Seq<u8>>| #[trigger]
                rest@.contains_key(k) <==> self@.stays(k, components(old_rel@), is_dir),
            forall|k: Seq<Seq<u8>>| #[trigger]
                rest@.contains_key(k) ==> rest@[k] == self@.index[k],
    {
        let ghost a = components(old_rel@);
        let mut rest: PathMap<u64> = PathMap::new();
        let n = self.index.len();
        let mut i: usize = 0;
        proof {
            self.index.lemma_entries();
        }
        while i < n
            invariant
                i <= n,
                n == self.index.size(),
                self.wf(),
                a == components(old_rel@),
                rest.wf(),
                forall|j: int|
                    0 <= j < n ==> self.index@.contains_key(#[trigger] self.index.key(j))
                        && self.index@[self.index.key(j)] == self.index.value(j),
                forall|k: Seq<Seq<u8>>| #[trigger]
                    rest@.contains_key(k) <==> !key_moves(k, a, is_dir) && exists|j: int|
                        0 <= j < i && #[trigger] self.index.key(j) == k,
                forall|k: Seq<Seq<u8>>| #[trigger]
                    rest@.contains_key(k) ==> rest@[k] == self.index@[k],
            decreases n - i,
        {
            let (p, ino) = self.index.entry(i);
            let ghost before = rest@;
            let ghost key = self.index.key(i as int);
            if !path_moves(p, old_rel, is_dir) {
                rest.insert(p, *ino);
            }
            proof {
                assert forall|k: Seq<Seq<u8>>| #[trigger]
                    rest@.contains_key(k) <==> !key_moves(k, a, is_dir) && exists|j: int|
                        0 <= j < i + 1 && #[trigger] self.index.key(j) == k by {
                    if rest@.contains_key(k) {
                        if before.contains_key(k) {
                            let j = choose|j: int| 0 <= j < i && #[trigger] self.index.key(j) == k;
                            assert(self.index.key(j) == k);
                        } else {
                            assert(self.index.key(i as int) == k);
                        }
                    }
                    if !key_moves(k, a, is_dir) && exists|j: int|
                        0 <= j < i + 1 && #[trigger] self.index.key(j) == k {
                        let j = choose|j: int| 0 <= j < i + 1 && #[trigger] self.index.key(j) == k;
                        if j < i {
                            assert(before.contains_key(k));
                        } else {
                            assert(key == k);
                        }
                    }
                }
            }
            i += 1;
        }
        proof {
            assert forall|k: Seq<Seq<u8>>| #[trigger]
                rest@.contains_key(k) <==> self@.stays(k, a, is_dir) by {
                if self@.stays(k, a, is_dir) {
                    let j = choose|j: int|
                        0 <= j < self.index.size() && #[trigger] self.index.key(j) == k;
                    assert(self.index.key(j) == k);
                }
            }
        }
        rest
    }

    /// Renames a path; with a directory, what lies below it moves along.
    #[verifier::spinoff_prover]
    pub fn rename(&mut self, old_rel: &FsPath, new_rel: &FsPath, is_dir: bool)
        requires
            old(self).wf(),
            components(old_rel@).len() > 0,
        ensures
            final(self).wf(),
            final(self)@ == old(self)@.renamed(old_rel@, new_rel@, is_dir),
    {
        let ghost then = self@;
        let ghost a = components(old_rel@);
        let ghost b = components(new_rel@);
        let ghost ix = self.index;
        let mut index = self.index_without(old_rel, is_dir);
        let n = self.index.len();
        let mut i: usize = 0;
        proof {
            ix.lemma_entries();
            assert forall|k: Seq<Seq<u8>>| #[trigger]
                index@.contains_key(k) <==> arrived(ix, 0, k, a, b, is_dir) || then.stays(
                k,
                a,
                is_dir,
            ) by {}
        }
        while i < n
            invariant
                i <= n,
                n == ix.size(),
                ix == self.index,
                ix@ == then.index,
                ix.wf(),
                then.consistent(),
                self.next == then.next,
                a == components(old_rel@),
                b == components(new_rel@),
                a.len() > 0,
                index.wf(),
                forall|j: int|
                    0 <= j < n ==> ix@.contains_key(#[trigger] ix.key(j)) && ix@[ix.key(j)]
                        == ix.value(j),
                forall|j: int, l: int|
                    0 <= j < n && 0 <= l < n && #[trigger] ix.key(j) == #[trigger] ix.key(l) ==> j
                        == l,
                forall|k: Seq<Seq<u8>>| #[trigger]
                    index@.contains_key(k) <==> arrived(ix, i as int, k, a, b, is_dir)
                        || then.stays(k, a, is_dir),
                forall|k: Seq<Seq<u8>>| #[trigger]
                    index@.contains_key(k) ==> index@[k] == (if arrived(
                        ix,
                        i as int,
                        k,
                        a,
                        b,
                        is_dir,
                    ) {
                        then.index[rekeyed(k, b, a)]
                    } else {
                        then.index[k]
                    }),
                forall|x: u64| #[trigger]
                    self.paths@.contains_key(x) <==> then.paths.contains_key(x),
                forall|x: u64| #[trigger]
                    self.paths@.contains_key(x) ==> self.paths@[x]@ == (if went(
                        ix,
                        i as int,
                        x,
                        a,
                        is_dir,
                    ) {
                        moved_path(then.paths[x], old_rel@, new_rel@)
                    } else {
                        then.paths[x]
                    }),
            decreases n - i,
        {
            let (p, number) = self.index.entry(i);
            let ino = *number;
            let ghost key = ix.key(i as int);
            let ghost before = index@;
            let ghost paths_before = self.paths@;
            assert(ix@.contains_key(key) && ix@[key] == ino);
            assert(then.paths.contains_key(ino) && components(then.paths[ino]) == key);
            assert(!went(ix, i as int, ino, a, is_dir)) by {
                if went(ix, i as int, ino, a, is_dir) {
                    let j = choose|j: int|
                        0 <= j < i && key_moves(#[trigger] ix.key(j), a, is_dir) && ix.value(j)
                            == ino;
                    assert(ix@.contains_key(ix.key(j)));
                    assert(components(then.paths[ix@[ix.key(j)]]) == ix.key(j));
                    assert(ix.key(j) == ix.key(i as int));
                }
            }
            if path_moves(p, old_rel, is_dir) {
                assert(self.paths@.contains_key(ino));
                let now = match self.paths.get(&ino) {
                    Some(path) => moved(path, old_rel, new_rel),
                    None => new_rel.clone(),
                };
                assert(now@ == moved_path(then.paths[ino], old_rel@, new_rel@));
                proof {
                    lemma_moved_key(then.paths[ino], old_rel@, new_rel@, is_dir);
                    lemma_rekeyed(key, a, b);
                }
                index.insert(&now, ino);
                self.paths.insert(ino, now);
                proof {
                    let to = rekeyed(key, a, b);
                    assert(components(now@) == to);
                    assert(arrived(ix, i + 1, to, a, b, is_dir));
                    assert(index@ == before.insert(to, ino));
                }
            }
            proof {
                assert forall|k: Seq<Seq<u8>>| arrived(ix, i + 1, k, a, b, is_dir) == (arrived(
                    ix,
                    i as int,
                    k,
                    a,
                    b,
                    is_dir,
                ) || (key_moves(key, a, is_dir) && rekeyed(key, a, b) == k)) by {
                    lemma_arrived_step(ix, i as int, k, a, b, is_dir);
                }
                assert forall|x: u64| went(ix, i + 1, x, a, is_dir) == (went(
                    ix,
                    i as int,
                    x,
                    a,
                    is_dir,
                ) || (key_moves(key, a, is_dir) && ino == x)) by {
                    lemma_went_step(ix, i as int, x, a, is_dir);
                }
                assert forall|k: Seq<Seq<u8>>| #[trigger] index@.contains_key(k) implies index@[k]
                    == (if arrived(ix, i + 1, k, a, b, is_dir) {
                    then.index[rekeyed(k, b, a)]
                } else {
                    then.index[k]
                }) by {
                    if key_moves(key, a, is_dir) && rekeyed(key, a, b) == k {
                        lemma_rekeyed(key, a, b);
                        assert(rekeyed(k, b, a) == key);
                    } else {
                        assert(before.contains_key(k));
                    }
                }
            }
            i += 1;
        }
        self.index = index;
        proof {
            let now = then.renamed(old_rel@, new_rel@, is_dir);
            assert forall|k: Seq<Seq<u8>>| arrived(ix, n as int, k, a, b, is_dir) == then.arrives(
                k,
                a,
                b,
                is_dir,
            ) by {
                lemma_arrived(ix, then, k, a, b, is_dir);
            }
            assert forall|x: u64| then.paths.contains_key(x) implies went(ix, n as int, x, a, is_dir)
                == then.moves(x, a, is_dir) by {
                lemma_went(ix, then, x, a, is_dir);
            }
            assert(self@.index =~= now.index);
            assert(self@.paths =~= now.paths);
            lemma_renamed_consistent(then, old_rel@, new_rel@, is_dir);
        }
    }
}

/// Whether one of the first `n` entries comes to have these components.
spec fn arrived(
    ix: PathMap<u64>,
    n: int,
    k: Seq<Seq<u8>>,
    a: Seq<Seq<u8>>,
    b: Seq<Seq<u8>>,
    is_dir: bool,
) -> bool {
    exists|j: int|
        0 <= j < n && key_moves(#[trigger] ix.key(j), a, is_dir) && rekeyed(ix.key(j), a, b) == k
}

/// Whether one of the first `n` entries moves and has this number.
spec fn went(ix: PathMap<u64>, n: int, x: u64, a: Seq<Seq<u8>>, is_dir: bool) -> bool {
    exists|j: int|
        0 <= j < n && key_moves(#[trigger] ix.key(j), a, is_dir) && ix.value(j) == x
}

proof fn lemma_arrived_step(
    ix: PathMap<u64>,
    i: int,
    k: Seq<Seq<u8>>,
    a: Seq<Seq<u8>>,
    b: Seq<Seq<u8>>,
    is_dir: bool,
)
    requires
        i >= 0,
    ensures
        arrived(ix, i + 1, k, a, b, is_dir) == (arrived(ix, i, k, a, b, is_dir) || (key_moves(
            ix.key(i),
            a,
            is_dir,
        ) && rekeyed(ix.key(i), a, b) == k)),
{
    if arrived(ix, i, k, a, b, is_dir) {
        let j = choose|j: int|
            0 <= j < i && key_moves(#[trigger] ix.key(j), a, is_dir) && rekeyed(ix.key(j), a, b)
                == k;
        assert(0 <= j < i + 1 && key_moves(ix.key(j), a, is_dir));
    }
}

proof fn lemma_went_step(ix: PathMap<u64>, i: int, x: u64, a: Seq<Seq<u8>>, is_dir: bool)
    requires
        i >= 0,
    ensures
        went(ix, i + 1, x, a, is_dir) == (went(ix, i, x, a, is_dir) || (key_moves(
            ix.key(i),
            a,
            is_dir,
        ) && ix.value(i) == x)),
{
    if went(ix, i, x, a, is_dir) {
        let j = choose|j: int|
            0 <= j < i && key_moves(#[trigger] ix.key(j), a, is_dir) && ix.value(j) == x;
        assert(0 <= j < i + 1 && key_moves(ix.key(j), a, is_dir));
    }
}

proof fn lemma_arrived(
    ix: PathMap<u64>,
    t: Inodes,
    k: Seq<Seq<u8>>,
    a: Seq<Seq<u8>>,
    b: Seq<Seq<u8>>,
    is_dir: bool,
)
    requires
        ix.wf(),
        ix@ == t.index,
    ensures
        arrived(ix, ix.size() as int, k, a, b, is_dir) == t.arrives(k, a, b, is_dir),
{
    ix.lemma_entries();
    if arrived(ix, ix.size() as int, k, a, b, is_dir) {
        let j = choose|j: int|
            0 <= j < ix.size() && key_moves(#[trigger] ix.key(j), a, is_dir) && rekeyed(
                ix.key(j),
                a,
                b,
            ) == k;
        lemma_rekeyed(ix.key(j), a, b);
        assert(b.is_prefix_of(k));
    }
    if t.arrives(k, a, b, is_dir) {
        let from = rekeyed(k, b, a);
        let j = choose|j: int| 0 <= j < ix.size() && #[trigger] ix.key(j) == from;
        assert(rekeyed(from, a, b) =~= k) by {
            assert(from.skip(a.len() as int) =~= k.skip(b.len() as int));
            assert(b + k.skip(b.len() as int) =~= k);
        }
        assert(key_moves(ix.key(j), a, is_dir));
    }
}

proof fn lemma_went(ix: PathMap<u64>, t: Inodes, x: u64, a: Seq<Seq<u8>>, is_dir: bool)
    requires
        ix.wf(),
        ix@ == t.index,
        t.consistent(),
        t.paths.contains_key(x),
    ensures
        went(ix, ix.size() as int, x, a, is_dir) == t.moves(x, a, is_dir),
{
    ix.lemma_entries();
    if went(ix, ix.size() as int, x, a, is_dir) {
        let j = choose|j: int|
            0 <= j < ix.size() && key_moves(#[trigger] ix.key(j), a, is_dir) && ix.value(j) == x;
        assert(t.index.contains_key(ix.key(j)));
    }
    if t.moves(x, a, is_dir) {
        let k = components(t.paths[x]);
        let j = choose|j: int| 0 <= j < ix.size() && #[trigger] ix.key(j) == k;
        assert(key_moves(ix.key(j), a, is_dir));
    }
}

proof fn lemma_rekeyed(k: Seq<Seq<u8>>, a: Seq<Seq<u8>>, b: Seq<Seq<u8>>)
    requires
        a.is_prefix_of(k) || k == a,
    ensures
        rekeyed(rekeyed(k, a, b), b, a) == k,
        b.is_prefix_of(rekeyed(k, a, b)),
{
    let r = rekeyed(k, a, b);
    assert(r.skip(b.len() as int) =~= k.skip(a.len() as int));
    assert(a + k.skip(a.len() as int) =~= k);
    assert(b.is_prefix_of(r));
}

proof fn lemma_moved_key(p: Seq<u8>, old_rel: Seq<u8>, new_rel: Seq<u8>, is_dir: bool)
    requires
        components(old_rel).len() > 0,
        key_moves(components(p), components(old_rel), is_dir),
    ensures
        components(moved_path(p, old_rel, new_rel)) == rekeyed(
            components(p),
            components(old_rel),
            components(new_rel),
        ),
{
    let a = components(old_rel);
    let b = components(new_rel);
    let k = components(p);
    if k == a {
        assert(rekeyed(k, a, b) =~= b);
    } else {
        assert(k.take(a.len() as int) =~= a);
        assert(starts_with(p, old_rel));
        law_joined_stripped(new_rel, p, old_rel);
        let s = strip(p, old_rel)->0;
        assert(components(s) =~= k.skip(a.len() as int));
    }
}

/// Renaming keeps the numbers consistent.
pub(crate) proof fn lemma_renamed_consistent(t: Inodes, old_rel: Seq<u8>, new_rel: Seq<u8>, is_dir: bool)
    requires
        t.consistent(),
        components(old_rel).len() > 0,
    ensures
        t.renamed(old_rel, new_rel, is_dir).consistent(),
{
    let a = components(old_rel);
    let b = components(new_rel);
    let now = t.renamed(old_rel, new_rel, is_dir);
    assert forall|k: Seq<Seq<u8>>| #[trigger] now.index.contains_key(k) implies now.paths.contains_key(
        now.index[k],
    ) && components(now.paths[now.index[k]]) == k by {
        if t.arrives(k, a, b, is_dir) {
            let from = rekeyed(k, b, a);
            let x = t.index[from];
            assert(t.paths.contains_key(x) && components(t.paths[x]) == from);
            assert(t.moves(x, a, is_dir));
            lemma_moved_key(t.paths[x], old_rel, new_rel, is_dir);
            assert(rekeyed(from, a, b) =~= k) by {
                assert(from.skip(a.len() as int) =~= k.skip(b.len() as int));
                assert(b + k.skip(b.len() as int) =~= k);
            }
        } else {
            let x = t.index[k];
            assert(t.paths.contains_key(x) && components(t.paths[x]) == k);
            assert(!t.moves(x, a, is_dir));
        }
    }
    assert forall|i: u64| #[trigger] now.paths.contains_key(i) implies i < now.next by {
        assert(t.paths.contains_key(i));
    }
}

/// Whether a path is renamed along with another.
fn path_moves(p: &FsPath, old_rel: &FsPath, is_dir: bool) -> (yes: bool)
    ensures
        yes == key_moves(components(p@), components(old_rel@), is_dir),
{
    proof {
        let n = components(old_rel@).len() as int;
        if n <= components(p@).len() {
            assert(components(p@).take(n) =~= components(p@).subrange(0, n));
        }
    }
    p.same(old_rel) || (is_dir && p.starts_with(old_rel))
}

/// Where a path moves when `old_rel` becomes `new_rel`.
fn moved(p: &FsPath, old_rel: &FsPath, new_rel: &FsPath) -> (q: FsPath)
    requires
        components(old_rel@).is_prefix_of(components(p@)),
    ensures
        q@ == moved_path(p@, old_rel@, new_rel@),
{
    if p.same(old_rel) {
        return new_rel.clone();
    }
    assert(components(p@).take(components(old_rel@).len() as int) =~= components(old_rel@));
    match p.strip_prefix(old_rel) {
        Some(rest) => new_rel.join(&rest),
        None => new_rel.clone(),
    }
}

} // verus!
