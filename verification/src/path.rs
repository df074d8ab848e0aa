//! Paths as byte strings, with the meaning that a Unix path has.
//!
//! A path keeps the text it was made from. Two paths are the same when they have
//! the same components: repeated separators, a trailing separator and `.`
//! components other than a leading one do not count.

use crate::bytes::{bytes_eq, contents, copy_bytes, push_bytes};
use vstd::prelude::*;

verus! {

/// The separator, `/`.
pub const SEP: u8 = 47;

/// The byte `.`.
pub const DOT: u8 = 46;

/// The text between separators: always one piece more than there are separators.
pub open spec fn pieces(t: Seq<u8>) -> Seq<Seq<u8>>
    decreases t.len(),
{
    if t.len() == 0 {
        seq![Seq::<u8>::empty()]
    } else {
        let ps = pieces(t.drop_last());
        if t.last() == SEP {
            ps.push(Seq::<u8>::empty())
        } else {
            ps.update(ps.len() - 1, ps.last().push(t.last()))
        }
    }
}

/// Pieces put together again, with separators between them.
pub open spec fn glue(ps: Seq<Seq<u8>>) -> Seq<u8>
    decreases ps.len(),
{
    if ps.len() == 0 {
        Seq::<u8>::empty()
    } else if ps.len() == 1 {
        ps[0]
    } else {
        glue(ps.drop_last()).push(SEP) + ps.last()
    }
}

/// The piece `.`.
pub open spec fn is_dot(p: Seq<u8>) -> bool {
    p.len() == 1 && p[0] == DOT
}

/// A piece that names nothing: the empty one, and `.`.
pub open spec fn is_blank(p: Seq<u8>) -> bool {
    p.len() == 0 || is_dot(p)
}

/// Whether piece `i` is a component: it names something, or it is a leading `.`.
pub open spec fn keeps(ps: Seq<Seq<u8>>, i: int) -> bool {
    ps[i].len() > 0 && (!is_dot(ps[i]) || i == 0)
}

/// The pieces that are components.
pub open spec fn kept(ps: Seq<Seq<u8>>) -> Seq<Seq<u8>>
    decreases ps.len(),
{
    if ps.len() == 0 {
        Seq::<Seq<u8>>::empty()
    } else if keeps(ps, ps.len() - 1) {
        kept(ps.drop_last()).push(ps.last())
    } else {
        kept(ps.drop_last())
    }
}

/// Whether a path starts at the root.
pub open spec fn is_absolute(t: Seq<u8>) -> bool {
    t.len() > 0 && t[0] == SEP
}

/// The components of a path; the root is the component `/`.
pub open spec fn components(t: Seq<u8>) -> Seq<Seq<u8>> {
    if is_absolute(t) {
        seq![seq![SEP]] + kept(pieces(t))
    } else {
        kept(pieces(t))
    }
}

/// Whether `base` leads to `t`, component by component.
pub open spec fn starts_with(t: Seq<u8>, base: Seq<u8>) -> bool {
    components(base).len() <= components(t).len() && components(t).take(
        components(base).len() as int,
    ) == components(base)
}

/// How many leading pieces it takes to have `n` components.
pub open spec fn cut(ps: Seq<Seq<u8>>, n: int) -> int
    decreases ps.len(),
{
    if n <= 0 || ps.len() == 0 {
        0
    } else if kept(ps.drop_last()).len() >= n {
        cut(ps.drop_last(), n)
    } else {
        ps.len() as int
    }
}

/// The pieces without the blank ones at the end.
pub open spec fn trim_back(ps: Seq<Seq<u8>>) -> Seq<Seq<u8>>
    decreases ps.len(),
{
    if ps.len() > 0 && is_blank(ps.last()) {
        trim_back(ps.drop_last())
    } else {
        ps
    }
}

/// The pieces without the blank ones at the start.
pub open spec fn trim_front(ps: Seq<Seq<u8>>) -> Seq<Seq<u8>>
    decreases ps.len(),
{
    if ps.len() > 0 && is_blank(ps[0]) {
        trim_front(ps.drop_first())
    } else {
        ps
    }
}

/// The text of `t` up to the end of its `n`-th component below the root.
pub open spec fn up_to(t: Seq<u8>, n: int) -> Seq<u8> {
    if n > 0 {
        glue(pieces(t).take(cut(pieces(t), n)))
    } else if is_absolute(t) {
        seq![SEP]
    } else {
        Seq::<u8>::empty()
    }
}

/// What remains of `t` behind `base`, or nothing where `base` does not lead to `t`.
pub open spec fn strip(t: Seq<u8>, base: Seq<u8>) -> Option<Seq<u8>> {
    if !starts_with(t, base) {
        None
    } else if components(base).len() == 0 {
        Some(up_to(t, kept(pieces(t)).len() as int))
    } else {
        let n = kept(pieces(base)).len() as int;
        Some(glue(trim_front(trim_back(pieces(t).skip(cut(pieces(t), n))))))
    }
}

/// `b` taken from `a`: an absolute `b` stands for itself.
pub open spec fn joined(a: Seq<u8>, b: Seq<u8>) -> Seq<u8> {
    if is_absolute(b) || a.len() == 0 {
        b
    } else if a.last() == SEP {
        a + b
    } else {
        a.push(SEP) + b
    }
}

/// The path by which a path is opened: the empty path stands for `.`.
pub open spec fn or_dot(t: Seq<u8>) -> Seq<u8> {
    if t.len() == 0 {
        seq![DOT]
    } else {
        t
    }
}

/// The piece `..`.
pub open spec fn is_dot_dot(p: Seq<u8>) -> bool {
    p.len() == 2 && p[0] == DOT && p[1] == DOT
}

/// Components with each `..` taken together with the name in front of it, and without
/// `.`. Above the root is the root.
pub open spec fn settled(cs: Seq<Seq<u8>>) -> Seq<Seq<u8>>
    decreases cs.len(),
{
    if cs.len() == 0 {
        Seq::<Seq<u8>>::empty()
    } else {
        let before = settled(cs.drop_last());
        if is_dot(cs.last()) {
            before
        } else if !is_dot_dot(cs.last()) || before.len() == 0 || is_dot_dot(before.last()) {
            before.push(cs.last())
        } else if before.last() == seq![SEP] {
            before
        } else {
            before.drop_last()
        }
    }
}

/// Whether two paths lead to the same place, as far as their names tell.
pub open spec fn same_place(a: Seq<u8>, b: Seq<u8>) -> bool {
    settled(components(a)) == settled(components(b))
}

/// The last component, where it is a name.
pub open spec fn file_name(t: Seq<u8>) -> Option<Seq<u8>> {
    let ks = kept(pieces(t));
    if ks.len() == 0 || is_dot(ks.last()) || is_dot_dot(ks.last()) {
        None
    } else {
        Some(ks.last())
    }
}

/// The path without its last component; the root and the empty path have no parent.
pub open spec fn parent(t: Seq<u8>) -> Option<Seq<u8>> {
    let n = kept(pieces(t)).len();
    if n == 0 {
        None
    } else {
        Some(up_to(t, n - 1))
    }
}

pub(crate) proof fn lemma_pieces_len(t: Seq<u8>)
    ensures
        pieces(t).len() >= 1,
    decreases t.len(),
{
    if t.len() > 0 {
        lemma_pieces_len(t.drop_last());
    }
}

/// Only the root has a separator in it, and only an absolute path starts with it.
pub(crate) proof fn lemma_root_first(t: Seq<u8>)
    ensures
        is_absolute(t) <==> components(t).len() > 0 && components(t)[0] == seq![SEP],
{
    lemma_kept_names(pieces(t));
    lemma_pieces_names(t);
    if is_absolute(t) {
        assert(components(t)[0] == seq![SEP]);
    } else if components(t).len() > 0 {
        let c = components(t)[0];
        let i = choose|i: int| 0 <= i < pieces(t).len() && pieces(t)[i] == kept(pieces(t))[0];
        assert(pieces(t)[i][0] != SEP);
        assert(seq![SEP][0] == SEP);
    }
}

/// The pieces of a text, one vector each.
fn split(t: &[u8]) -> (ps: Vec<Vec<u8>>)
    ensures
        contents(ps@) == pieces(t@),
{
    let mut done: Vec<Vec<u8>> = Vec::new();
    let mut last: Vec<u8> = Vec::new();
    let mut i: usize = 0;
    assert(t@.take(0) =~= Seq::<u8>::empty());
    assert(contents(done@).push(last@) =~= pieces(t@.take(0)));
    while i < t.len()
        invariant
            i <= t.len(),
            contents(done@).push(last@) == pieces(t@.take(i as int)),
        decreases t.len() - i,
    {
        let c = t[i];
        let ghost before = t@.take(i as int);
        let ghost ps = pieces(before);
        assert(t@.take(i + 1).drop_last() =~= before);
        if c == SEP {
            let ghost was = contents(done@);
            let ghost piece = last@;
            done.push(last);
            last = Vec::new();
            assert(contents(done@) =~= was.push(piece));
        } else {
            last.push(c);
            assert(contents(done@).push(last@) =~= ps.update(ps.len() - 1, ps.last().push(c)));
        }
        i += 1;
    }
    assert(t@.take(t@.len() as int) =~= t@);
    let ghost was = contents(done@);
    let ghost piece = last@;
    done.push(last);
    assert(contents(done@) =~= was.push(piece));
    done
}

pub(crate) proof fn lemma_kept_names(ps: Seq<Seq<u8>>)
    ensures
        forall|i: int| 0 <= i < kept(ps).len() ==> ps.contains(#[trigger] kept(ps)[i]) && kept(
            ps,
        )[i].len() > 0,
    decreases ps.len(),
{
    if ps.len() > 0 {
        let front = ps.drop_last();
        lemma_kept_names(front);
        assert forall|i: int| 0 <= i < kept(ps).len() implies ps.contains(#[trigger] kept(ps)[i])
            && kept(ps)[i].len() > 0 by {
            if i < kept(front).len() {
                assert(kept(ps)[i] == kept(front)[i]);
                let j = choose|j: int| 0 <= j < front.len() && front[j] == kept(front)[i];
                assert(ps[j] == kept(ps)[i]);
            } else {
                assert(ps[ps.len() - 1] == kept(ps)[i]);
            }
        }
    }
}

/// No piece holds a separator.
pub(crate) proof fn lemma_pieces_names(t: Seq<u8>)
    ensures
        forall|i: int, j: int|
            0 <= i < pieces(t).len() && 0 <= j < pieces(t)[i].len() ==> #[trigger] pieces(t)[i][j]
                != SEP,
    decreases t.len(),
{
    if t.len() > 0 {
        lemma_pieces_names(t.drop_last());
        lemma_pieces_len(t.drop_last());
    }
}

proof fn lemma_contents_push(v: Seq<Vec<u8>>, x: Vec<u8>)
    ensures
        contents(v.push(x)) == contents(v).push(x@),
{
    assert(contents(v.push(x)) =~= contents(v).push(x@));
}

/// Whether a piece names nothing.
fn blank(p: &[u8]) -> (yes: bool)
    ensures
        yes == is_blank(p@),
{
    p.len() == 0 || (p.len() == 1 && p[0] == DOT)
}

/// Whether piece `i` is a component.
fn keep(ps: &Vec<Vec<u8>>, i: usize) -> (yes: bool)
    requires
        i < ps.len(),
    ensures
        yes == keeps(contents(ps@), i as int),
{
    ps[i].len() > 0 && (i == 0 || !(ps[i].len() == 1 && ps[i][0] == DOT))
}

/// The pieces that are components, one vector each.
fn keep_all(ps: &Vec<Vec<u8>>) -> (ks: Vec<Vec<u8>>)
    ensures
        contents(ks@) == kept(contents(ps@)),
{
    let mut ks: Vec<Vec<u8>> = Vec::new();
    let mut i: usize = 0;
    let ghost all = contents(ps@);
    assert(contents(ks@) =~= kept(all.take(0)));
    while i < ps.len()
        invariant
            i <= ps.len(),
            all == contents(ps@),
            contents(ks@) == kept(all.take(i as int)),
        decreases ps.len() - i,
    {
        assert(all.take(i + 1).drop_last() =~= all.take(i as int));
        if keep(ps, i) {
            let copy = copy_bytes(&ps[i]);
            proof {
                lemma_contents_push(ks@, copy);
            }
            ks.push(copy);
        }
        i += 1;
    }
    assert(all.take(all.len() as int) =~= all);
    ks
}

/// How many leading pieces it takes to have `n` components.
fn cut_at(ps: &Vec<Vec<u8>>, n: usize) -> (k: usize)
    ensures
        k == cut(contents(ps@), n as int),
        k <= ps.len(),
{
    let mut k: usize = 0;
    let mut seen: usize = 0;
    let ghost all = contents(ps@);
    while k < ps.len() && seen < n
        invariant
            k <= ps.len(),
            all == contents(ps@),
            seen == kept(all.take(k as int)).len(),
            seen <= n,
            seen <= k,
            k > 0 ==> kept(all.take(k - 1)).len() < n,
        decreases ps.len() - k,
    {
        assert(all.take(k + 1).drop_last() =~= all.take(k as int));
        if keep(ps, k) {
            seen += 1;
        }
        k += 1;
    }
    proof {
        lemma_cut(all, n as int, k as int);
    }
    k
}

pub(crate) proof fn lemma_kept_len(ps: Seq<Seq<u8>>, i: int, j: int)
    requires
        0 <= i <= j <= ps.len(),
    ensures
        kept(ps.take(i)).len() <= kept(ps.take(j)).len() <= kept(ps.take(i)).len() + (j - i),
    decreases j,
{
    if i < j {
        lemma_kept_len(ps, i, j - 1);
        assert(ps.take(j).drop_last() =~= ps.take(j - 1));
    }
}

pub(crate) proof fn lemma_cut(ps: Seq<Seq<u8>>, n: int, k: int)
    requires
        0 <= k <= ps.len(),
        k > 0 ==> kept(ps.take(k - 1)).len() < n,
        kept(ps.take(k)).len() >= n || k == ps.len(),
    ensures
        cut(ps, n) == k,
    decreases ps.len(),
{
    if n <= 0 || ps.len() == 0 {
    } else if k == ps.len() {
        assert(ps.drop_last() =~= ps.take(k - 1));
    } else {
        let front = ps.drop_last();
        lemma_kept_len(ps, k, ps.len() - 1);
        assert(front =~= ps.take(ps.len() - 1));
        assert(front.take(k) =~= ps.take(k));
        if k > 0 {
            assert(front.take(k - 1) =~= ps.take(k - 1));
        }
        lemma_cut(front, n, k);
    }
}

/// Pieces `from..to` put together again.
fn glue_range(ps: &Vec<Vec<u8>>, from: usize, to: usize) -> (t: Vec<u8>)
    requires
        from <= to <= ps.len(),
    ensures
        t@ == glue(contents(ps@).subrange(from as int, to as int)),
{
    let mut t: Vec<u8> = Vec::new();
    let mut i: usize = from;
    let ghost all = contents(ps@);
    assert(t@ =~= glue(all.subrange(from as int, from as int)));
    while i < to
        invariant
            from <= i <= to <= ps.len(),
            all == contents(ps@),
            t@ == glue(all.subrange(from as int, i as int)),
        decreases to - i,
    {
        let ghost part = all.subrange(from as int, i + 1);
        assert(part.drop_last() =~= all.subrange(from as int, i as int));
        if i > from {
            t.push(SEP);
        }
        push_bytes(&mut t, &ps[i]);
        assert(t@ =~= glue(part));
        i += 1;
    }
    t
}

/// Where the pieces `from..` end once the blank ones at the end are left out.
fn back_edge(ps: &Vec<Vec<u8>>, from: usize) -> (to: usize)
    requires
        from <= ps.len(),
    ensures
        from <= to <= ps.len(),
        contents(ps@).subrange(from as int, to as int) == trim_back(contents(ps@).skip(from as int)),
{
    let mut to: usize = ps.len();
    let ghost all = contents(ps@);
    assert(all.subrange(from as int, to as int) =~= all.skip(from as int));
    while to > from && blank(&ps[to - 1])
        invariant
            from <= to <= ps.len(),
            all == contents(ps@),
            trim_back(all.subrange(from as int, to as int)) == trim_back(all.skip(from as int)),
        decreases to,
    {
        assert(all.subrange(from as int, to as int).drop_last() =~= all.subrange(
            from as int,
            to - 1,
        ));
        to -= 1;
    }
    to
}

/// Where the pieces `from..to` start once the blank ones at the start are left out.
fn front_edge(ps: &Vec<Vec<u8>>, from: usize, to: usize) -> (start: usize)
    requires
        from <= to <= ps.len(),
    ensures
        from <= start <= to,
        contents(ps@).subrange(start as int, to as int) == trim_front(
            contents(ps@).subrange(from as int, to as int),
        ),
{
    let mut start: usize = from;
    let ghost all = contents(ps@);
    while start < to && blank(&ps[start])
        invariant
            from <= start <= to <= ps.len(),
            all == contents(ps@),
            trim_front(all.subrange(start as int, to as int)) == trim_front(
                all.subrange(from as int, to as int),
            ),
        decreases to - start,
    {
        assert(all.subrange(start as int, to as int).drop_first() =~= all.subrange(
            start + 1,
            to as int,
        ));
        start += 1;
    }
    start
}

/// Whether the first `n` strings of two lists are the same.
fn same_front(a: &Vec<Vec<u8>>, b: &Vec<Vec<u8>>, n: usize) -> (same: bool)
    requires
        n <= a.len(),
        n <= b.len(),
    ensures
        same == (contents(a@).take(n as int) == contents(b@).take(n as int)),
{
    let mut i: usize = 0;
    while i < n
        invariant
            i <= n <= a.len(),
            n <= b.len(),
            forall|j: int| 0 <= j < i ==> a@[j]@ == b@[j]@,
        decreases n - i,
    {
        if !bytes_eq(&a[i], &b[i]) {
            proof {
                assert(contents(a@).take(n as int)[i as int] != contents(b@).take(n as int)[i as int]);
            }
            return false;
        }
        i += 1;
    }
    assert(contents(a@).take(n as int) =~= contents(b@).take(n as int));
    true
}

/// A path: any byte string, read as Unix reads paths.
#[derive(Debug)]
pub struct FsPath {
    text: Vec<u8>,
}

impl View for FsPath {
    type V = Seq<u8>;

    closed spec fn view(&self) -> Seq<u8> {
        self.text@
    }
}

/// The models of a list of paths.
pub open spec fn paths(v: Seq<FsPath>) -> Seq<Seq<u8>> {
    Seq::new(v.len(), |i: int| v[i]@)
}

impl Clone for FsPath {
    fn clone(&self) -> (copy: FsPath)
        ensures
            copy@ == self@,
    {
        FsPath { text: copy_bytes(&self.text) }
    }
}

impl FsPath {
    /// The empty path.
    pub fn new() -> (p: FsPath)
        ensures
            p@ == Seq::<u8>::empty(),
    {
        FsPath { text: Vec::new() }
    }

    /// The path with this text.
    pub fn from_bytes(text: &[u8]) -> (p: FsPath)
        ensures
            p@ == text@,
    {
        FsPath { text: copy_bytes(text) }
    }

    /// The text of the path.
    pub fn as_bytes(&self) -> (text: &[u8])
        ensures
            text@ == self@,
    {
        self.text.as_slice()
    }

    /// Whether the text is empty.
    pub fn is_empty(&self) -> (yes: bool)
        ensures
            yes == (self@.len() == 0),
    {
        self.text.len() == 0
    }

    /// Whether the path starts at the root.
    pub fn is_absolute(&self) -> (yes: bool)
        ensures
            yes == is_absolute(self@),
    {
        self.text.len() > 0 && self.text[0] == SEP
    }

    /// The path by which it is opened: the empty path stands for `.`.
    pub fn or_dot(&self) -> (p: FsPath)
        ensures
            p@ == or_dot(self@),
    {
        if self.text.len() == 0 {
            let dot: [u8; 1] = [DOT];
            let p = FsPath::from_bytes(&dot);
            assert(p@ =~= seq![DOT]);
            p
        } else {
            self.clone()
        }
    }

    /// `tail` taken from this path.
    pub fn join(&self, tail: &FsPath) -> (p: FsPath)
        ensures
            p@ == joined(self@, tail@),
    {
        if tail.is_absolute() || self.text.len() == 0 {
            return tail.clone();
        }
        let mut text = copy_bytes(&self.text);
        if text[text.len() - 1] != SEP {
            text.push(SEP);
        }
        push_bytes(&mut text, &tail.text);
        FsPath { text }
    }

    /// Whether two paths have the same components.
    pub fn same(&self, other: &FsPath) -> (yes: bool)
        ensures
            yes == (components(self@) == components(other@)),
    {
        let yes = self.is_absolute() == other.is_absolute() && self.parts().len()
            == other.parts().len() && self.starts_with(other);
        proof {
            let n = components(other@).len() as int;
            if components(self@).len() == n {
                assert(components(self@).take(n) =~= components(self@));
            }
            if components(self@) == components(other@) {
                lemma_root_first(self@);
                lemma_root_first(other@);
            }
        }
        yes
    }

    /// The components, with each `..` taken together with the name in front of it, and
    /// without `.`.
    fn settle(&self) -> (cs: Vec<Vec<u8>>)
        ensures
            contents(cs@) == settled(components(self@)),
    {
        let ks = self.parts();
        let ghost all = components(self@);
        let ghost skip = if is_absolute(self@) { 1int } else { 0 };
        let mut cs: Vec<Vec<u8>> = Vec::new();
        assert(contents(cs@) =~= settled(all.take(0)));
        if self.is_absolute() {
            let mut root: Vec<u8> = Vec::new();
            root.push(SEP);
            assert(root@ =~= seq![SEP]);
            proof {
                lemma_contents_push(cs@, root);
                assert(all.take(1).drop_last() =~= all.take(0));
                assert(all.take(1).last() == seq![SEP]);
            }
            cs.push(root);
        }
        let mut i: usize = 0;
        while i < ks.len()
            invariant
                i <= ks.len(),
                contents(ks@) == kept(pieces(self@)),
                all == components(self@),
                skip == (if is_absolute(self@) { 1int } else { 0 }),
                all.len() == ks.len() + skip,
                contents(cs@) == settled(all.take(i + skip)),
            decreases ks.len() - i,
        {
            let k = &ks[i];
            let ghost was = contents(cs@);
            proof {
                assert(contents(ks@)[i as int] == k@);
                assert(all[i + skip] == k@);
                assert(all.take(i + skip + 1).drop_last() =~= all.take(i + skip));
                assert(all.take(i + skip + 1).last() == k@);
            }
            let back = k.len() == 2 && k[0] == DOT && k[1] == DOT;
            if back && cs.len() > 0 {
                let top = &cs[cs.len() - 1];
                assert(top@ == was.last());
                let above = top.len() == 2 && top[0] == DOT && top[1] == DOT;
                let root = top.len() == 1 && top[0] == SEP;
                assert(root == (top@ == seq![SEP])) by {
                    if root {
                        assert(top@ =~= seq![SEP]);
                    }
                }
                if above {
                    cs.push(copy_bytes(k));
                    assert(contents(cs@) =~= was.push(k@));
                } else if !root {
                    let _ = cs.pop();
                    assert(contents(cs@) =~= was.drop_last());
                }
            } else if !(k.len() == 1 && k[0] == DOT) {
                cs.push(copy_bytes(k));
                assert(contents(cs@) =~= was.push(k@));
            }
            i += 1;
        }
        assert(all.take(all.len() as int) =~= all);
        cs
    }

    /// Whether two paths lead to the same place, as far as their names tell.
    pub fn same_place(&self, other: &FsPath) -> (yes: bool)
        ensures
            yes == same_place(self@, other@),
    {
        let a = self.settle();
        let b = other.settle();
        let n = a.len();
        proof {
            assert(contents(a@).take(a@.len() as int) =~= contents(a@));
            assert(contents(b@).take(b@.len() as int) =~= contents(b@));
        }
        n == b.len() && same_front(&a, &b, n)
    }

    /// The components, the root left out.
    fn parts(&self) -> (ks: Vec<Vec<u8>>)
        ensures
            contents(ks@) == kept(pieces(self@)),
    {
        keep_all(&split(&self.text))
    }

    /// Whether `base` leads to this path.
    pub fn starts_with(&self, base: &FsPath) -> (yes: bool)
        ensures
            yes == starts_with(self@, base@),
    {
        let a = self.parts();
        let b = base.parts();
        let ghost ca = components(self@);
        let ghost cb = components(base@);
        let ghost ka = kept(pieces(self@));
        let ghost kb = kept(pieces(base@));
        if self.is_absolute() != base.is_absolute() {
            proof {
                lemma_root_first(self@);
                lemma_root_first(base@);
                if cb.len() == 0 {
                    assert(ca.take(0) =~= cb);
                } else if starts_with(self@, base@) {
                    assert(ca[0] == ca.take(cb.len() as int)[0]);
                }
            }
            return b.len() == 0 && !base.is_absolute();
        }
        if b.len() > a.len() {
            return false;
        }
        proof {
            let n = kb.len() as int;
            if is_absolute(self@) {
                assert(ca.take(cb.len() as int) =~= seq![seq![SEP]] + ka.take(n));
                assert(ca.take(cb.len() as int).skip(1) =~= ka.take(n));
                assert(cb.skip(1) =~= kb);
            }
            assert(kb.take(n) =~= kb);
        }
        same_front(&a, &b, b.len())
    }

    /// The text up to the end of the `n`-th component below the root.
    fn front(&self, n: usize) -> (p: FsPath)
        ensures
            p@ == up_to(self@, n as int),
    {
        if n == 0 {
            let mut text: Vec<u8> = Vec::new();
            if self.is_absolute() {
                text.push(SEP);
            }
            assert(text@ =~= up_to(self@, 0));
            return FsPath { text };
        }
        let ps = split(&self.text);
        let k = cut_at(&ps, n);
        assert(contents(ps@).subrange(0, k as int) =~= contents(ps@).take(k as int));
        FsPath { text: glue_range(&ps, 0, k) }
    }

    /// What remains of this path behind `base`, where `base` leads to it.
    pub fn strip_prefix(&self, base: &FsPath) -> (rest: Option<FsPath>)
        ensures
            match rest {
                Some(p) => strip(self@, base@) == Some(p@),
                None => strip(self@, base@) is None,
            },
    {
        if !self.starts_with(base) {
            return None;
        }
        let n = base.parts().len();
        if n == 0 && !base.is_absolute() {
            return Some(self.front(self.parts().len()));
        }
        let ps = split(&self.text);
        let from = cut_at(&ps, n);
        let to = back_edge(&ps, from);
        let start = front_edge(&ps, from, to);
        Some(FsPath { text: glue_range(&ps, start, to) })
    }

    /// The last component, where it is a name.
    pub fn file_name(&self) -> (name: Option<Vec<u8>>)
        ensures
            match name {
                Some(n) => file_name(self@) == Some(n@),
                None => file_name(self@) is None,
            },
    {
        let ks = self.parts();
        if ks.len() == 0 {
            return None;
        }
        let last = &ks[ks.len() - 1];
        assert(last@ == kept(pieces(self@)).last());
        if (last.len() == 1 && last[0] == DOT) || (last.len() == 2 && last[0] == DOT && last[1]
            == DOT) {
            return None;
        }
        Some(copy_bytes(last))
    }

    /// The path without its last component.
    pub fn parent(&self) -> (up: Option<FsPath>)
        ensures
            match up {
                Some(p) => parent(self@) == Some(p@),
                None => parent(self@) is None,
            },
    {
        let n = self.parts().len();
        if n == 0 {
            return None;
        }
        Some(self.front(n - 1))
    }
}

} // verus!
