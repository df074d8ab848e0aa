//! Directory renames: under which older name each renamed directory is still judged.

use crate::config::{FolderRename, Rename};
use crate::matcher::{anchor, anchored};
use crate::path::{components, joined, paths, strip, FsPath};
use crate::path_laws::law_strip_same;
use crate::path_map::PathMap;
use vstd::prelude::*;
use vstd::utf8::encode_utf8;

verus! {

/// The original name of each renamed directory, by the components of its current name.
pub type Aliases = Map<Seq<Seq<u8>>, Seq<u8>>;

/// The name under which a directory is judged: its original one, where it was renamed.
pub open spec fn original(m: Aliases, dir: Seq<u8>) -> Seq<u8> {
    if m.contains_key(components(dir)) {
        m[components(dir)]
    } else {
        dir
    }
}

/// The table after one more rename.
pub open spec fn record(m: Aliases, from: Seq<u8>, to: Seq<u8>) -> Aliases {
    m.insert(components(to), original(m, from))
}

/// A directory rename: both names as they are matched.
#[verifier::ext_equal]
pub struct Move {
    pub from: Seq<u8>,
    pub to: Seq<u8>,
}

/// A directory rename.
pub struct DirMove {
    pub from: FsPath,
    pub to: FsPath,
}

impl View for DirMove {
    type V = Move;

    open spec fn view(&self) -> Move {
        Move { from: self.from@, to: self.to@ }
    }
}

/// The models of a list of renames.
pub open spec fn move_list(v: Seq<DirMove>) -> Seq<Move> {
    Seq::new(v.len(), |i: int| v[i]@)
}

/// A recorded rename as its names are matched.
pub open spec fn move_of(r: Rename, case_sensitive: bool) -> Move {
    Move {
        from: anchor(encode_utf8(r.from), case_sensitive),
        to: anchor(encode_utf8(r.to), case_sensitive),
    }
}

/// Recorded renames as their names are matched, oldest first.
pub open spec fn moves_of(rs: Seq<Rename>, case_sensitive: bool) -> Seq<Move> {
    Seq::new(rs.len(), |i: int| move_of(rs[i], case_sensitive))
}

/// The table after renames, oldest first.
pub open spec fn table(ms: Seq<Move>) -> Aliases
    decreases ms.len(),
{
    if ms.len() == 0 {
        Map::empty()
    } else {
        record(table(ms.drop_last()), ms.last().from, ms.last().to)
    }
}

/// What a path was called before a directory was renamed.
pub open spec fn before(m: Move, rel: Seq<u8>) -> Seq<u8> {
    match strip(rel, m.to) {
        Some(rest) => joined(m.from, rest),
        None => rel,
    }
}

/// What a path was called before all renames: they are undone one by one, newest first.
pub open spec fn undone(ms: Seq<Move>, rel: Seq<u8>) -> Seq<u8>
    decreases ms.len(),
{
    if ms.len() == 0 {
        rel
    } else {
        undone(ms.drop_last(), before(ms.last(), rel))
    }
}

/// Whether a path at or below a renamed directory has `next` for its name where the
/// directory goes by its original name.
pub open spec fn older_name(m: Aliases, rel: Seq<u8>, next: Seq<u8>) -> bool {
    exists|to: Seq<u8>|
        m.contains_key(#[trigger] components(to)) && (strip(rel, to) matches Some(rest) && next
            == joined(m[components(to)], rest))
}

/// Whether a path stands for another: for the one that it has where a renamed directory
/// at or above it goes by its original name, and for the one that it had before all
/// renames.
pub open spec fn stands_for(ms: Seq<Move>, rel: Seq<u8>, was: Seq<u8>) -> bool {
    older_name(table(ms), rel, was) || (ms.len() > 0 && was == undone(ms, rel))
}

/// The table of renamed directories.
pub type AliasMap = PathMap<FsPath>;

/// Records one more rename.
pub fn record_alias(m: &mut AliasMap, from: &FsPath, to: &FsPath)
    requires
        old(m).wf(),
    ensures
        final(m).wf(),
        final(m)@ == record(old(m)@, from@, to@),
{
    let name = match m.get(from) {
        Some(n) => n.clone(),
        None => from.clone(),
    };
    m.insert(to, name);
}

/// Recorded renames as their names are matched, oldest first.
pub fn build_moves(renames: &Vec<FolderRename>, case_sensitive: bool) -> (ms: Vec<DirMove>)
    ensures
        move_list(ms@) == moves_of(crate::config::renames(renames@), case_sensitive),
{
    let mut ms: Vec<DirMove> = Vec::new();
    let ghost all = moves_of(crate::config::renames(renames@), case_sensitive);
    let mut i: usize = 0;
    assert(move_list(ms@) =~= all.take(0));
    while i < renames.len()
        invariant
            i <= renames.len(),
            all == moves_of(crate::config::renames(renames@), case_sensitive),
            move_list(ms@) == all.take(i as int),
        decreases renames.len() - i,
    {
        let ghost was = move_list(ms@);
        let from = FsPath::from_bytes(renames[i].from.as_str().as_bytes());
        let to = FsPath::from_bytes(renames[i].to.as_str().as_bytes());
        let m = DirMove {
            from: anchored(&from, case_sensitive),
            to: anchored(&to, case_sensitive),
        };
        assert(m@ =~= all[i as int]);
        ms.push(m);
        assert(move_list(ms@) =~= was.push(all[i as int]));
        assert(all.take(i + 1) =~= all.take(i as int).push(all[i as int]));
        i += 1;
    }
    assert(all.take(all.len() as int) =~= all);
    ms
}

/// The table after recorded renames, oldest first.
pub fn build_alias_map(renames: &Vec<FolderRename>, case_sensitive: bool) -> (m: AliasMap)
    ensures
        m.wf(),
        m@ == table(moves_of(crate::config::renames(renames@), case_sensitive)),
{
    let ms = build_moves(renames, case_sensitive);
    let mut m = AliasMap::new();
    let ghost all = move_list(ms@);
    let mut i: usize = 0;
    while i < ms.len()
        invariant
            i <= ms.len(),
            all == move_list(ms@),
            m.wf(),
            m@ == table(all.take(i as int)),
        decreases ms.len() - i,
    {
        assert(all.take(i + 1).drop_last() =~= all.take(i as int));
        assert(all.take(i + 1).last() == ms@[i as int]@);
        record_alias(&mut m, &ms[i].from, &ms[i].to);
        i += 1;
    }
    assert(all.take(all.len() as int) =~= all);
    m
}

/// What a path was called before all renames.
fn undo_all(ms: &Vec<DirMove>, rel: &FsPath) -> (was: FsPath)
    ensures
        was@ == undone(move_list(ms@), rel@),
{
    let ghost all = move_list(ms@);
    let mut here = rel.clone();
    let mut n: usize = ms.len();
    assert(all.take(n as int) =~= all);
    while n > 0
        invariant
            n <= ms.len(),
            all == move_list(ms@),
            undone(all.take(n as int), here@) == undone(all, rel@),
        decreases n,
    {
        let m = &ms[n - 1];
        assert(all.take(n as int).last() == m@);
        assert(all.take(n as int).drop_last() =~= all.take(n - 1));
        if let Some(rest) = here.strip_prefix(&m.to) {
            here = m.from.join(&rest);
        }
        n -= 1;
    }
    here
}

/// All that a path stands for.
pub fn older_names(ms: &Vec<DirMove>, m: &AliasMap, rel: &FsPath) -> (names: Vec<FsPath>)
    requires
        m.wf(),
        m@ == table(move_list(ms@)),
    ensures
        forall|was: Seq<u8>| #[trigger]
            paths(names@).contains(was) <==> stands_for(move_list(ms@), rel@, was),
{
    let mut names: Vec<FsPath> = Vec::new();
    proof {
        m.lemma_entries();
    }
    let n = m.len();
    let mut i: usize = 0;
    while i < n
        invariant
            i <= n,
            n == m.size(),
            forall|j: int|
                0 <= j < m.size() ==> m@.contains_key(#[trigger] m.key(j)) && m@[m.key(j)]
                    == m.value(j),
            forall|j: int|
                0 <= j < names.len() ==> older_name(m@, rel@, #[trigger] paths(names@)[j]),
            forall|j: int|
                0 <= j < i ==> (strip(rel@, #[trigger] m.path(j)) matches Some(rest) ==> paths(
                    names@,
                ).contains(joined(m.value(j), rest))),
        decreases n - i,
    {
        let (to, from) = m.entry(i);
        assert(m@.contains_key(m.key(i as int)));
        if let Some(rest) = rel.strip_prefix(to) {
            let next = from.join(&rest);
            assert(m@.contains_key(components(to@)));
            assert(older_name(m@, rel@, next@));
            let ghost was = paths(names@);
            names.push(next);
            proof {
                assert(paths(names@) =~= was.push(next@));
                lemma_paths_push(was, paths(names@), next@);
            }
        }
        i += 1;
    }
    let ghost old_names = paths(names@);
    proof {
        assert forall|next: Seq<u8>| #[trigger] older_name(m@, rel@, next) implies paths(
            names@,
        ).contains(next) by {
            let to = choose|to: Seq<u8>|
                m@.contains_key(#[trigger] components(to)) && (strip(rel@, to) matches Some(rest)
                    && next == joined(m@[components(to)], rest));
            let j = choose|j: int|
                0 <= j < m.size() && #[trigger] m.key(j) == components(to);
            law_strip_same(rel@, to, m.path(j));
        }
    }
    if ms.len() > 0 {
        let first = undo_all(ms, rel);
        names.push(first);
        proof {
            assert(paths(names@) =~= old_names.push(first@));
            lemma_paths_push(old_names, paths(names@), first@);
        }
    }
    proof {
        let all = paths(names@);
        assert forall|was: Seq<u8>| #[trigger] all.contains(was) <==> stands_for(
            move_list(ms@),
            rel@,
            was,
        ) by {
            if all.contains(was) {
                let j = choose|j: int| 0 <= j < all.len() && all[j] == was;
                if j < old_names.len() {
                    assert(old_names[j] == was);
                }
            }
        }
    }
    names
}

proof fn lemma_paths_push(was: Seq<Seq<u8>>, now: Seq<Seq<u8>>, p: Seq<u8>)
    requires
        now == was.push(p),
    ensures
        now.contains(p),
        forall|q: Seq<u8>| was.contains(q) ==> #[trigger] now.contains(q),
{
    assert(now[was.len() as int] == p);
    assert forall|q: Seq<u8>| was.contains(q) implies #[trigger] now.contains(q) by {
        let k = choose|k: int| 0 <= k < was.len() && was[k] == q;
        assert(now[k] == q);
    }
}

} // verus!
