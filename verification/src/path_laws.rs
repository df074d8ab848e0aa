//! What holds of paths: how joining and stripping undo each other, and what leads where.

use crate::path::{
    components, cut, file_name, glue, is_absolute, is_blank, is_dot, is_dot_dot, joined, keeps,
    kept, lemma_cut, lemma_kept_len, lemma_kept_names, lemma_pieces_len, lemma_pieces_names,
    lemma_root_first, parent, pieces, same_place, settled, starts_with, strip, trim_back,
    trim_front, up_to, DOT, SEP,
};
use vstd::prelude::*;

verus! {

/// A relative path with names only: no piece is empty or `.`.
pub open spec fn is_plain(t: Seq<u8>) -> bool {
    forall|i: int| 0 <= i < pieces(t).len() ==> !is_blank(#[trigger] pieces(t)[i])
}

pub(crate) proof fn lemma_glue_pieces(t: Seq<u8>)
    ensures
        glue(pieces(t)) == t,
    decreases t.len(),
{
    if t.len() > 0 {
        let f = t.drop_last();
        let ps = pieces(f);
        lemma_glue_pieces(f);
        lemma_pieces_len(f);
        if t.last() == SEP {
            assert(ps.push(Seq::<u8>::empty()).drop_last() =~= ps);
            assert(glue(pieces(t)) =~= t);
        } else {
            let qs = ps.update(ps.len() - 1, ps.last().push(t.last()));
            assert(qs.drop_last() =~= ps.drop_last());
            assert(glue(qs) =~= glue(ps).push(t.last()));
            assert(t =~= f.push(t.last()));
        }
    }
}

pub(crate) proof fn lemma_pieces_join(a: Seq<u8>, b: Seq<u8>)
    ensures
        pieces(a.push(SEP) + b) == pieces(a) + pieces(b),
    decreases b.len(),
{
    let t = a.push(SEP) + b;
    lemma_pieces_len(a);
    if b.len() == 0 {
        assert(t =~= a.push(SEP));
        assert(t.drop_last() =~= a);
        assert(pieces(t) =~= pieces(a) + pieces(b));
    } else {
        let f = b.drop_last();
        lemma_pieces_join(a, f);
        lemma_pieces_len(f);
        assert(t.drop_last() =~= a.push(SEP) + f);
        assert(t.last() == b.last());
        assert(pieces(t) =~= pieces(a) + pieces(b));
    }
}

/// The pieces of a joined path: those of the first part, without an empty last one,
/// and those of the second.
pub(crate) proof fn lemma_pieces_joined(a: Seq<u8>, b: Seq<u8>) -> (front: Seq<Seq<u8>>)
    requires
        a.len() > 0,
        !is_absolute(b),
    ensures
        pieces(joined(a, b)) == front + pieces(b),
        kept(front) == kept(pieces(a)),
        front.len() > 0,
        is_absolute(joined(a, b)) == is_absolute(a),
{
    lemma_pieces_len(a);
    if a.last() == SEP {
        let f = a.drop_last();
        lemma_pieces_join(f, b);
        lemma_pieces_len(f);
        assert(a =~= f.push(SEP));
        assert(pieces(a).drop_last() =~= pieces(f));
        pieces(f)
    } else {
        lemma_pieces_join(a, b);
        pieces(a)
    }
}

pub(crate) proof fn lemma_kept_add(x: Seq<Seq<u8>>, y: Seq<Seq<u8>>)
    requires
        forall|i: int| 0 <= i < y.len() ==> !is_blank(#[trigger] y[i]),
    ensures
        kept(x + y) == kept(x) + y,
    decreases y.len(),
{
    if y.len() == 0 {
        assert(x + y =~= x);
        assert(kept(x) + y =~= kept(x));
    } else {
        let z = x + y;
        assert(z.drop_last() =~= x + y.drop_last());
        assert forall|i: int| 0 <= i < y.drop_last().len() implies !is_blank(
            #[trigger] y.drop_last()[i],
        ) by {
            assert(y.drop_last()[i] == y[i]);
        }
        lemma_kept_add(x, y.drop_last());
        assert(z.last() == y.last());
        assert(!is_blank(y[y.len() - 1]));
        assert(keeps(z, z.len() - 1));
        assert(kept(z) =~= kept(x) + y);
    }
}

proof fn lemma_cut_bounds(ps: Seq<Seq<u8>>, n: int)
    requires
        0 <= n <= kept(ps).len(),
    ensures
        0 <= cut(ps, n) <= ps.len(),
        kept(ps.take(cut(ps, n))).len() == n,
        cut(ps, n) > 0 ==> kept(ps.take(cut(ps, n) - 1)).len() < n,
    decreases ps.len(),
{
    if n == 0 || ps.len() == 0 {
        assert(ps.take(0) =~= Seq::<Seq<u8>>::empty());
    } else {
        let f = ps.drop_last();
        assert(f =~= ps.take(ps.len() - 1));
        if kept(f).len() >= n {
            lemma_cut_bounds(f, n);
            let c = cut(f, n);
            assert(f.take(c) =~= ps.take(c));
            if c > 0 {
                assert(f.take(c - 1) =~= ps.take(c - 1));
            }
        } else {
            assert(ps.take(ps.len() as int) =~= ps);
        }
    }
}

/// Pieces that add no component name nothing.
proof fn lemma_unkept_blank(ps: Seq<Seq<u8>>, i: int, j: int)
    requires
        0 <= i <= j < ps.len(),
        kept(ps.take(i)).len() == kept(ps).len(),
    ensures
        is_blank(ps[j]),
{
    lemma_kept_len(ps, i, j);
    lemma_kept_len(ps, j, j + 1);
    lemma_kept_len(ps, j + 1, ps.len() as int);
    assert(ps.take(ps.len() as int) =~= ps);
    assert(ps.take(j + 1).drop_last() =~= ps.take(j));
    assert(!keeps(ps.take(j + 1), j));
}

proof fn lemma_trim_front(x: Seq<Seq<u8>>, y: Seq<Seq<u8>>)
    requires
        forall|i: int| 0 <= i < x.len() ==> is_blank(#[trigger] x[i]),
        y.len() > 0,
        !is_blank(y[0]),
    ensures
        trim_front(x + y) == y,
    decreases x.len(),
{
    if x.len() == 0 {
        assert(x + y =~= y);
    } else {
        assert(is_blank(x[0]));
        assert((x + y)[0] == x[0]);
        assert((x + y).drop_first() =~= x.drop_first() + y);
        assert forall|i: int| 0 <= i < x.drop_first().len() implies is_blank(
            #[trigger] x.drop_first()[i],
        ) by {
            assert(x.drop_first()[i] == x[i + 1]);
        }
        lemma_trim_front(x.drop_first(), y);
    }
}

/// The components of a joined path are those of its two parts.
pub proof fn law_components_joined(a: Seq<u8>, s: Seq<u8>)
    requires
        is_plain(s),
    ensures
        components(joined(a, s)) == components(a) + pieces(s),
        components(s) == pieces(s),
{
    lemma_pieces_len(s);
    let none = Seq::<Seq<u8>>::empty();
    lemma_kept_add(none, pieces(s));
    assert(none + pieces(s) =~= pieces(s));
    assert(kept(none) + pieces(s) =~= pieces(s));
    lemma_plain_relative(s);
    if a.len() == 0 {
        assert(kept(pieces(a)) =~= none) by {
            reveal_with_fuel(kept, 2);
            assert(pieces(a).drop_last() =~= none);
        }
        assert(components(a) + pieces(s) =~= pieces(s));
    } else {
        let front = lemma_pieces_joined(a, s);
        lemma_kept_add(front, pieces(s));
        assert(components(joined(a, s)) =~= components(a) + pieces(s));
    }
}

pub(crate) proof fn lemma_plain_relative(s: Seq<u8>)
    requires
        is_plain(s),
    ensures
        !is_absolute(s),
        s.len() > 0,
{
    lemma_pieces_len(s);
    assert(!is_blank(pieces(s)[0]));
    if s.len() > 0 && s[0] == SEP {
        let none = Seq::<u8>::empty();
        assert(none.push(SEP) + s.skip(1) =~= s);
        lemma_pieces_join(none, s.skip(1));
        assert(pieces(s)[0] == pieces(none)[0]);
    }
}

/// What remains of a joined path behind its first part is its second part.
pub proof fn law_strip_joined(a: Seq<u8>, s: Seq<u8>)
    requires
        is_plain(s),
    ensures
        strip(joined(a, s), a) == Some(s),
{
    let t = joined(a, s);
    let ps = pieces(t);
    let ss = pieces(s);
    law_components_joined(a, s);
    lemma_plain_relative(s);
    lemma_pieces_len(s);
    lemma_glue_pieces(s);
    assert((components(a) + ss).take(components(a).len() as int) =~= components(a));
    assert(starts_with(t, a));
    if a.len() == 0 {
        let none = Seq::<Seq<u8>>::empty();
        assert(kept(pieces(a)) =~= none) by {
            reveal_with_fuel(kept, 2);
            assert(pieces(a).drop_last() =~= none);
        }
        assert(kept(ss) == ss);
        assert(ss.take(ss.len() - 1) =~= ss.drop_last());
        lemma_kept_len(ss, 0, ss.len() - 1);
        assert(ss.take(0) =~= none);
        assert(ss.take(ss.len() as int) =~= ss);
        lemma_cut(ss, ss.len() as int, ss.len() as int);
        assert(up_to(t, ss.len() as int) == s);
    } else {
        let front = lemma_pieces_joined(a, s);
        let n = kept(pieces(a)).len() as int;
        assert(front.len() > 0);
        assert(components(a).len() > 0) by {
            lemma_some_component(a);
        }
        lemma_kept_add(front, ss);
        assert(ps.take(front.len() as int) =~= front);
        lemma_cut_bounds(front, n);
        let c = cut(front, n);
        assert(front.take(c) =~= ps.take(c));
        if c > 0 {
            assert(front.take(c - 1) =~= ps.take(c - 1));
        }
        lemma_cut(ps, n, c);
        let rest = ps.skip(c);
        let lead = front.skip(c);
        assert(rest =~= lead + ss);
        assert forall|i: int| 0 <= i < lead.len() implies is_blank(#[trigger] lead[i]) by {
            lemma_unkept_blank(front, c, c + i);
        }
        assert(rest.last() == ss[ss.len() - 1]);
        assert(trim_back(rest) == rest);
        assert(!is_blank(ss[0]));
        lemma_trim_front(lead, ss);
        assert(glue(trim_front(trim_back(ps.skip(c)))) == s);
    }
}

proof fn lemma_trim_front_sub(ps: Seq<Seq<u8>>)
    ensures
        trim_front(ps).len() > 0 ==> !is_blank(trim_front(ps)[0]) && ps.contains(trim_front(ps)[0]),
    decreases ps.len(),
{
    if ps.len() > 0 {
        if is_blank(ps[0]) {
            let rest = ps.drop_first();
            lemma_trim_front_sub(rest);
            if trim_front(rest).len() > 0 {
                let j = choose|j: int| 0 <= j < rest.len() && rest[j] == trim_front(rest)[0];
                assert(ps[j + 1] == trim_front(ps)[0]);
            }
        } else {
            assert(ps[0] == trim_front(ps)[0]);
        }
    }
}

proof fn lemma_trim_back_sub(ps: Seq<Seq<u8>>, p: Seq<u8>)
    requires
        trim_back(ps).contains(p),
    ensures
        ps.contains(p),
    decreases ps.len(),
{
    if ps.len() > 0 && is_blank(ps.last()) {
        lemma_trim_back_sub(ps.drop_last(), p);
        let j = choose|j: int| 0 <= j < ps.drop_last().len() && ps.drop_last()[j] == p;
        assert(ps[j] == p);
    }
}

proof fn lemma_glue_front(ps: Seq<Seq<u8>>)
    requires
        ps.len() > 0,
    ensures
        ps[0].is_prefix_of(glue(ps)),
        ps.len() > 1 ==> glue(ps).len() > ps[0].len() && glue(ps)[ps[0].len() as int] == SEP,
        ps.len() == 1 ==> glue(ps) == ps[0],
    decreases ps.len(),
{
    if ps.len() > 1 {
        lemma_glue_front(ps.drop_last());
        assert(ps.drop_last()[0] == ps[0]);
    }
}

/// What remains behind a path with components starts with a name, if with anything.
pub(crate) proof fn lemma_strip_relative(t: Seq<u8>, base: Seq<u8>)
    requires
        components(base).len() > 0,
    ensures
        strip(t, base) matches Some(rel) ==> !is_absolute(rel) && !(rel.len() > 1 && rel[0] == DOT
            && rel[1] == SEP),
{
    if strip(t, base) is Some {
        let n = kept(pieces(base)).len() as int;
        let rest = pieces(t).skip(cut(pieces(t), n));
        let ps = trim_front(trim_back(rest));
        let rel = glue(ps);
        if ps.len() > 0 {
            lemma_trim_front_sub(trim_back(rest));
            lemma_trim_back_sub(rest, ps[0]);
            let j = choose|j: int| 0 <= j < rest.len() && rest[j] == ps[0];
            lemma_kept_len(pieces(t), 0, pieces(t).len() as int);
            lemma_cut_range(pieces(t), n);
            assert(pieces(t)[cut(pieces(t), n) + j] == ps[0]);
            lemma_pieces_names(t);
            lemma_glue_front(ps);
            assert(ps[0][0] != SEP);
            assert(rel[0] == ps[0][0]);
            if ps[0].len() > 1 {
                assert(ps[0][1] != SEP);
                assert(rel[1] == ps[0][1]);
            }
        }
    }
}

proof fn lemma_cut_range(ps: Seq<Seq<u8>>, n: int)
    ensures
        0 <= cut(ps, n) <= ps.len(),
    decreases ps.len(),
{
    if n > 0 && ps.len() > 0 {
        lemma_cut_range(ps.drop_last(), n);
    }
}

/// Every path with a text has a component.
proof fn lemma_some_component(t: Seq<u8>)
    requires
        t.len() > 0,
    ensures
        components(t).len() > 0,
{
    if !is_absolute(t) {
        lemma_first_piece(t);
        lemma_pieces_len(t);
        let ps = pieces(t);
        lemma_kept_len(ps, 1, ps.len() as int);
        assert(ps.take(ps.len() as int) =~= ps);
        assert(ps.take(1)[0] == ps[0]);
        assert(keeps(ps.take(1), 0));
    }
}

proof fn lemma_first_piece(t: Seq<u8>)
    requires
        t.len() > 0,
        t[0] != SEP,
    ensures
        pieces(t)[0].len() > 0,
    decreases t.len(),
{
    lemma_pieces_len(t.drop_last());
    if t.len() > 1 {
        lemma_first_piece(t.drop_last());
    } else {
        assert(t.drop_last() =~= Seq::<u8>::empty());
    }
}

pub(crate) proof fn lemma_single_piece(p: Seq<u8>)
    requires
        forall|i: int| 0 <= i < p.len() ==> #[trigger] p[i] != SEP,
    ensures
        pieces(p) == seq![p],
    decreases p.len(),
{
    if p.len() > 0 {
        let f = p.drop_last();
        assert forall|i: int| 0 <= i < f.len() implies #[trigger] f[i] != SEP by {
            assert(f[i] == p[i]);
        }
        lemma_single_piece(f);
        assert(p.last() != SEP);
        assert(f.push(p.last()) =~= p);
        assert(pieces(p) =~= seq![p]);
    } else {
        assert(p =~= Seq::<u8>::empty());
    }
}

pub(crate) proof fn lemma_pieces_glue(ps: Seq<Seq<u8>>)
    requires
        ps.len() > 0,
        forall|i: int, j: int|
            0 <= i < ps.len() && 0 <= j < ps[i].len() ==> #[trigger] ps[i][j] != SEP,
    ensures
        pieces(glue(ps)) == ps,
    decreases ps.len(),
{
    let last = ps.last();
    assert forall|j: int| 0 <= j < last.len() implies #[trigger] last[j] != SEP by {
        assert(ps[ps.len() - 1][j] != SEP);
    }
    lemma_single_piece(last);
    if ps.len() == 1 {
        assert(ps =~= seq![last]);
    } else {
        let f = ps.drop_last();
        assert forall|i: int, j: int| 0 <= i < f.len() && 0 <= j < f[i].len() implies #[trigger] f[i][j]
            != SEP by {
            assert(f[i][j] == ps[i][j]);
        }
        lemma_pieces_glue(f);
        lemma_pieces_join(glue(f), last);
        assert(f + seq![last] =~= ps);
    }
}

/// A path up to its `n`-th component below the root has these `n` components.
pub(crate) proof fn lemma_up_to(t: Seq<u8>, n: int)
    requires
        0 <= n <= kept(pieces(t)).len(),
    ensures
        kept(pieces(up_to(t, n))) == kept(pieces(t)).take(n),
        is_absolute(up_to(t, n)) == is_absolute(t),
{
    let ps = pieces(t);
    let none = Seq::<Seq<u8>>::empty();
    if n == 0 {
        assert(kept(pieces(up_to(t, 0))) =~= none) by {
            reveal_with_fuel(kept, 3);
            reveal_with_fuel(pieces, 2);
            let u = up_to(t, 0);
            if is_absolute(t) {
                assert(u.drop_last() =~= Seq::<u8>::empty());
                assert(pieces(u) =~= seq![Seq::<u8>::empty(), Seq::<u8>::empty()]);
                assert(pieces(u).drop_last() =~= seq![Seq::<u8>::empty()]);
                assert(pieces(u).drop_last().drop_last() =~= none);
            } else {
                assert(pieces(u).drop_last() =~= none);
            }
        }
        assert(kept(ps).take(0) =~= none);
    } else {
        lemma_cut_bounds(ps, n);
        let c = cut(ps, n);
        let front = ps.take(c);
        assert(c > 0) by {
            assert(ps.take(0) =~= none);
        }
        lemma_pieces_names(t);
        assert forall|i: int, j: int|
            0 <= i < front.len() && 0 <= j < front[i].len() implies #[trigger] front[i][j]
            != SEP by {
            assert(front[i][j] == ps[i][j]);
        }
        lemma_pieces_glue(front);
        lemma_kept_prefix(ps, c);
        assert(kept(front) =~= kept(ps).take(n));
        lemma_glue_front(front);
        lemma_glue_pieces(t);
        lemma_pieces_len(t);
        lemma_glue_front(ps);
        let u = up_to(t, n);
        if ps[0].len() > 0 {
            assert(u[0] == ps[0][0] && t[0] == ps[0][0]);
        } else {
            if ps.len() == 1 {
                assert(front =~= ps);
            }
            if front.len() == 1 {
                assert(front[0].len() == 0);
                assert(front =~= none.push(front[0]));
                assert(kept(front) =~= none) by {
                    reveal_with_fuel(kept, 2);
                    assert(front.drop_last() =~= none);
                }
            }
        }
    }
}

proof fn lemma_kept_prefix(ps: Seq<Seq<u8>>, c: int)
    requires
        0 <= c <= ps.len(),
    ensures
        kept(ps.take(c)).is_prefix_of(kept(ps)),
    decreases ps.len(),
{
    if c < ps.len() {
        assert(ps.drop_last().take(c) =~= ps.take(c));
        lemma_kept_prefix(ps.drop_last(), c);
    } else {
        assert(ps.take(c) =~= ps);
    }
}

/// What remains behind a path depends on the path's components alone.
pub proof fn law_strip_same(t: Seq<u8>, a: Seq<u8>, b: Seq<u8>)
    requires
        components(a) == components(b),
    ensures
        strip(t, a) == strip(t, b),
{
    lemma_root_first(a);
    lemma_root_first(b);
    if is_absolute(a) {
        assert(components(a).skip(1) =~= kept(pieces(a)));
        assert(components(b).skip(1) =~= kept(pieces(b)));
    }
}

proof fn lemma_kept_concat(x: Seq<Seq<u8>>, y: Seq<Seq<u8>>)
    requires
        x.len() == 0 || y.len() == 0 || !is_dot(y[0]),
    ensures
        kept(x + y) == kept(x) + kept(y),
    decreases y.len(),
{
    if y.len() == 0 {
        assert(x + y =~= x);
        assert(kept(x) + kept(y) =~= kept(x));
    } else if x.len() == 0 {
        assert(x + y =~= y);
        assert(kept(x) + kept(y) =~= kept(y));
    } else {
        let z = x + y;
        assert(z.drop_last() =~= x + y.drop_last());
        assert(z.last() == y.last());
        lemma_kept_concat(x, y.drop_last());
        assert(keeps(z, z.len() - 1) == keeps(y, y.len() - 1));
        assert(kept(z) =~= kept(x) + kept(y));
    }
}

proof fn lemma_kept_blank(x: Seq<Seq<u8>>, y: Seq<Seq<u8>>)
    requires
        forall|i: int| 0 <= i < y.len() ==> is_blank(#[trigger] y[i]),
        x.len() > 0 || y.len() == 0 || !is_dot(y[0]),
    ensures
        kept(x + y) == kept(x),
    decreases y.len(),
{
    if y.len() == 0 {
        assert(x + y =~= x);
    } else {
        let z = x + y;
        let f = y.drop_last();
        assert(z.drop_last() =~= x + f);
        assert forall|i: int| 0 <= i < f.len() implies is_blank(#[trigger] f[i]) by {
            assert(f[i] == y[i]);
        }
        lemma_kept_blank(x, f);
        assert(is_blank(y[y.len() - 1]));
        assert(z.last() == y[y.len() - 1]);
        assert(!keeps(z, z.len() - 1));
    }
}

proof fn lemma_trim_back_split(ps: Seq<Seq<u8>>) -> (k: int)
    ensures
        0 <= k <= ps.len(),
        trim_back(ps) == ps.take(k),
        forall|i: int| k <= i < ps.len() ==> is_blank(#[trigger] ps[i]),
    decreases ps.len(),
{
    if ps.len() > 0 && is_blank(ps.last()) {
        let k = lemma_trim_back_split(ps.drop_last());
        assert(ps.drop_last().take(k) =~= ps.take(k));
        assert forall|i: int| k <= i < ps.len() implies is_blank(#[trigger] ps[i]) by {
            if i < ps.len() - 1 {
                assert(ps.drop_last()[i] == ps[i]);
            }
        }
        k
    } else {
        assert(ps.take(ps.len() as int) =~= ps);
        ps.len() as int
    }
}

proof fn lemma_trim_front_split(ps: Seq<Seq<u8>>) -> (k: int)
    ensures
        0 <= k <= ps.len(),
        trim_front(ps) == ps.skip(k),
        forall|i: int| 0 <= i < k ==> is_blank(#[trigger] ps[i]),
    decreases ps.len(),
{
    if ps.len() > 0 && is_blank(ps[0]) {
        let k = lemma_trim_front_split(ps.drop_first());
        assert(ps.drop_first().skip(k) =~= ps.skip(k + 1));
        assert forall|i: int| 0 <= i < k + 1 implies is_blank(#[trigger] ps[i]) by {
            if i > 0 {
                assert(ps.drop_first()[i - 1] == ps[i]);
            }
        }
        k + 1
    } else {
        assert(ps.skip(0) =~= ps);
        0
    }
}

/// The components of the empty path.
pub(crate) proof fn lemma_empty_path()
    ensures
        kept(pieces(Seq::<u8>::empty())) == Seq::<Seq<u8>>::empty(),
        components(Seq::<u8>::empty()) == Seq::<Seq<u8>>::empty(),
{
    reveal_with_fuel(kept, 2);
    let ps = pieces(Seq::<u8>::empty());
    assert(ps.drop_last() =~= Seq::<Seq<u8>>::empty());
}

/// Cutting blank pieces off what follows the first `c` pieces cuts off no component.
proof fn lemma_rest_kept(ps: Seq<Seq<u8>>, c: int)
    requires
        0 <= c <= ps.len(),
        c > 0 || ps.len() == 0 || !is_dot(ps[0]),
    ensures
        kept(ps) == kept(ps.take(c)) + kept(trim_front(trim_back(ps.skip(c)))),
{
    let lead = ps.take(c);
    let rest = ps.skip(c);
    let k = lemma_trim_back_split(rest);
    let mid = rest.take(k);
    let j = lemma_trim_front_split(mid);
    let q = mid.skip(j);
    let x1 = mid.take(j);
    let x2 = rest.skip(k);
    assert(ps =~= lead + x1 + q + x2);
    assert forall|i: int| 0 <= i < x1.len() implies is_blank(#[trigger] x1[i]) by {
        assert(x1[i] == mid[i]);
    }
    assert forall|i: int| 0 <= i < x2.len() implies is_blank(#[trigger] x2[i]) by {
        assert(x2[i] == rest[k + i]);
    }
    if x1.len() > 0 && c == 0 {
        assert(x1[0] == ps[0]);
    }
    lemma_kept_blank(lead, x1);
    lemma_trim_front_sub(mid);
    lemma_kept_concat(lead + x1, q);
    if x2.len() > 0 && (lead + x1 + q).len() == 0 {
        assert(x2[0] == ps[0]);
    }
    lemma_kept_blank(lead + x1 + q, x2);
}

/// What is left of a path's pieces holds no separator, and glued together has the same
/// components.
proof fn lemma_rest_glued(t: Seq<u8>, c: int)
    requires
        0 <= c <= pieces(t).len(),
    ensures
        ({
            let q = trim_front(trim_back(pieces(t).skip(c)));
            kept(pieces(glue(q))) == kept(q)
        }),
{
    let rest = pieces(t).skip(c);
    let k = lemma_trim_back_split(rest);
    let j = lemma_trim_front_split(rest.take(k));
    let q = trim_front(trim_back(rest));
    if q.len() > 0 {
        lemma_pieces_names(t);
        assert forall|a: int, b: int| 0 <= a < q.len() && 0 <= b < q[a].len() implies #[trigger] q[a][b]
            != SEP by {
            assert(q[a] == pieces(t)[c + j + a]);
            assert(pieces(t)[c + j + a][b] != SEP);
        }
        lemma_pieces_glue(q);
    } else {
        assert(q =~= Seq::<Seq<u8>>::empty());
        lemma_empty_path();
    }
}

/// A base that leads to a path is as absolute as the path, and its components below the
/// root are the path's first ones.
proof fn lemma_base_kept(t: Seq<u8>, base: Seq<u8>)
    requires
        starts_with(t, base),
        components(base).len() > 0,
    ensures
        is_absolute(t) == is_absolute(base),
        kept(pieces(base)).len() <= kept(pieces(t)).len(),
        kept(pieces(t)).take(kept(pieces(base)).len() as int) == kept(pieces(base)),
{
    lemma_root_first(t);
    lemma_root_first(base);
    let m = components(base).len() as int;
    let n = kept(pieces(base)).len() as int;
    assert(components(t).take(m)[0] == components(t)[0]);
    if is_absolute(t) {
        assert(components(t).take(m).skip(1) =~= kept(pieces(t)).take(n));
        assert(components(base).skip(1) =~= kept(pieces(base)));
    }
}

/// A path's components are those of a base that leads to it, followed by those of what
/// remains behind the base.
pub proof fn law_strip_components(t: Seq<u8>, base: Seq<u8>)
    ensures
        strip(t, base) matches Some(s) ==> components(t) == components(base) + components(s),
{
    if strip(t, base) is Some {
        let s = strip(t, base)->0;
        let ps = pieces(t);
        if components(base).len() == 0 {
            let n = kept(ps).len() as int;
            lemma_up_to(t, n);
            assert(kept(ps).take(n) =~= kept(ps));
            assert(components(base) + components(s) =~= components(t));
        } else {
            lemma_base_kept(t, base);
            let n = kept(pieces(base)).len() as int;
            lemma_cut_bounds(ps, n);
            let c = cut(ps, n);
            lemma_kept_prefix(ps, c);
            assert(kept(ps.take(c)) =~= kept(ps).take(n));
            if c == 0 {
                assert(ps.take(0) =~= Seq::<Seq<u8>>::empty());
                lemma_first_empty(t);
            }
            lemma_rest_kept(ps, c);
            lemma_rest_glued(t, c);
            lemma_strip_relative(t, base);
            assert(components(t) =~= components(base) + components(s));
        }
    }
}

proof fn lemma_first_empty(t: Seq<u8>)
    ensures
        is_absolute(t) ==> pieces(t).len() >= 2 && pieces(t)[0].len() == 0,
    decreases t.len(),
{
    if t.len() > 0 {
        lemma_pieces_len(t.drop_last());
        if t.len() > 1 {
            lemma_first_empty(t.drop_last());
        } else {
            assert(t.drop_last() =~= Seq::<u8>::empty());
        }
    }
}

/// The components of a path joined with what remains behind another.
pub proof fn law_joined_stripped(a: Seq<u8>, t: Seq<u8>, base: Seq<u8>)
    requires
        components(base).len() > 0,
    ensures
        strip(t, base) matches Some(s) ==> components(joined(a, s)) == components(a) + components(s)
            && components(t) == components(base) + components(s),
{
    if strip(t, base) is Some {
        let s = strip(t, base)->0;
        law_strip_components(t, base);
        lemma_strip_relative(t, base);
        lemma_empty_path();
        if a.len() == 0 {
            assert(a =~= Seq::<u8>::empty());
            assert(components(a) + components(s) =~= components(s));
        } else {
            let front = lemma_pieces_joined(a, s);
            lemma_strip_first(t, base);
            lemma_kept_concat(front, pieces(s));
            assert(components(joined(a, s)) =~= components(a) + components(s));
        }
    }
}

proof fn lemma_strip_first(t: Seq<u8>, base: Seq<u8>)
    requires
        components(base).len() > 0,
        strip(t, base) is Some,
    ensures
        !is_dot(pieces(strip(t, base)->0)[0]),
{
    let s = strip(t, base)->0;
    let n = kept(pieces(base)).len() as int;
    let rest = pieces(t).skip(cut(pieces(t), n));
    let q = trim_front(trim_back(rest));
    lemma_cut_range(pieces(t), n);
    if q.len() > 0 {
        lemma_trim_front_sub(trim_back(rest));
        lemma_pieces_names(t);
        assert forall|a: int, b: int| 0 <= a < q.len() && 0 <= b < q[a].len() implies #[trigger] q[a][b]
            != SEP by {
            let k = lemma_trim_back_split(rest);
            let j = lemma_trim_front_split(rest.take(k));
            assert(q[a] == rest[j + a]);
            assert(pieces(t)[cut(pieces(t), n) + j + a][b] != SEP);
        }
        lemma_pieces_glue(q);
    } else {
        assert(s =~= Seq::<u8>::empty());
    }
}

/// Nothing remains of a path behind itself.
pub proof fn law_strip_self(t: Seq<u8>)
    requires
        components(t).len() > 0,
    ensures
        strip(t, t) == Some(Seq::<u8>::empty()),
{
    assert(components(t).take(components(t).len() as int) =~= components(t));
    law_strip_components(t, t);
    let s = strip(t, t)->0;
    assert(components(s).len() == 0);
    if s.len() > 0 {
        lemma_some_component(s);
    }
    assert(s =~= Seq::<u8>::empty());
}

/// A parent has one component less.
pub proof fn law_parent_shorter(t: Seq<u8>)
    ensures
        parent(t) matches Some(p) ==> components(p) == components(t).drop_last() && kept(
            pieces(p),
        ).len() < kept(pieces(t)).len(),
{
    let n = kept(pieces(t)).len();
    if n > 0 {
        lemma_up_to(t, n - 1);
        let p = up_to(t, n - 1);
        assert(components(p) =~= components(t).drop_last());
    }
}

/// A path is its parent joined with its last component.
pub proof fn law_parent_and_name(t: Seq<u8>)
    ensures
        file_name(t) matches Some(n) ==> is_plain(n) && (parent(t) matches Some(p) && components(
            joined(p, n),
        ) == components(t)),
{
    if file_name(t) is Some {
        let ks = kept(pieces(t));
        let n = ks.last();
        let p = parent(t)->0;
        law_parent_shorter(t);
        lemma_kept_names(pieces(t));
        lemma_pieces_names(t);
        assert(ks[ks.len() - 1] == n);
        let i = choose|i: int| 0 <= i < pieces(t).len() && pieces(t)[i] == n;
        assert forall|j: int| 0 <= j < n.len() implies #[trigger] n[j] != SEP by {
            assert(pieces(t)[i][j] != SEP);
        }
        lemma_single_piece(n);
        assert(is_plain(n));
        law_components_joined(p, n);
        assert(components(t).last() == n);
        assert(components(p) + seq![n] =~= components(t));
    }
}

/// Paths with the same components lead to the same place.
pub proof fn law_same_place(a: Seq<u8>, b: Seq<u8>)
    requires
        components(a) == components(b),
    ensures
        same_place(a, b),
{
}

proof fn lemma_settled_last(cs: Seq<Seq<u8>>)
    requires
        cs.len() > 0,
        !is_dot(cs.last()),
        !is_dot_dot(cs.last()),
    ensures
        settled(cs).len() > 0,
        settled(cs).last() == cs.last(),
        settled(cs).drop_last() == settled(cs.drop_last()),
{
    assert(settled(cs).drop_last() =~= settled(cs.drop_last()));
}

/// A `..` behind a directory leads to the directory above it: what is called `name` there
/// is found by either path.
pub proof fn law_parent_place(dir: Seq<u8>, back: Seq<u8>, name: Seq<u8>)
    requires
        is_absolute(dir),
        file_name(dir) is Some,
        is_dot_dot(back),
        is_plain(name),
        pieces(name).len() == 1,
    ensures
        parent(dir) matches Some(p) && same_place(joined(joined(dir, back), name), joined(p, name)),
{
    let p = parent(dir)->0;
    let cs = components(dir);
    law_parent_shorter(dir);
    assert(is_dot_dot(back) ==> forall|i: int| 0 <= i < back.len() ==> #[trigger] back[i] != SEP);
    lemma_single_piece(back);
    law_components_joined(dir, back);
    law_components_joined(joined(dir, back), name);
    law_components_joined(p, name);
    assert(cs.last() == kept(pieces(dir)).last());
    let x = cs + pieces(back);
    lemma_settled_last(cs);
    lemma_root_first(dir);
    assert(x.drop_last() =~= cs);
    assert(x.last() == back);
    assert(cs.last() != seq![SEP]) by {
        lemma_kept_names(pieces(dir));
        lemma_pieces_names(dir);
        let ks = kept(pieces(dir));
        assert(ks[ks.len() - 1] == cs.last());
        let i = choose|i: int| 0 <= i < pieces(dir).len() && pieces(dir)[i] == cs.last();
        if cs.last() == seq![SEP] {
            assert(pieces(dir)[i][0] == SEP);
        }
    }
    assert(settled(x) == settled(cs.drop_last()));
    let n = pieces(name);
    assert((x + n).drop_last() =~= x);
    assert((cs.drop_last() + n).drop_last() =~= cs.drop_last());
    assert((x + n).last() == (cs.drop_last() + n).last());
}

/// A joined path with names only has names only.
pub proof fn law_plain_joined(a: Seq<u8>, b: Seq<u8>)
    requires
        is_plain(a),
        is_plain(b),
    ensures
        is_plain(joined(a, b)),
{
    lemma_plain_relative(a);
    lemma_plain_relative(b);
    law_components_joined(a, b);
    let t = joined(a, b);
    let front = lemma_pieces_joined(a, b);
    assert(pieces(t) == front + pieces(b));
    lemma_plain_end(a);
    assert(pieces(t) =~= pieces(a) + pieces(b)) by {
        lemma_pieces_join(a, b);
    }
    assert forall|i: int| 0 <= i < pieces(t).len() implies !is_blank(
        #[trigger] pieces(t)[i],
    ) by {
        if i < pieces(a).len() {
            assert(pieces(t)[i] == pieces(a)[i]);
        } else {
            assert(pieces(t)[i] == pieces(b)[i - pieces(a).len()]);
        }
    }
}

proof fn lemma_plain_end(a: Seq<u8>)
    requires
        is_plain(a),
    ensures
        a.len() > 0,
        a.last() != SEP,
{
    lemma_plain_relative(a);
    lemma_pieces_len(a.drop_last());
    if a.last() == SEP {
        let n = pieces(a).len() - 1;
        assert(pieces(a)[n].len() == 0);
        assert(is_blank(pieces(a)[n]));
    }
}

/// Paths with names only can be joined in any order.
pub proof fn law_joined_thrice(a: Seq<u8>, x: Seq<u8>, y: Seq<u8>)
    requires
        is_plain(x),
        is_plain(y),
    ensures
        joined(a, joined(x, y)) == joined(joined(a, x), y),
{
    lemma_plain_relative(x);
    lemma_plain_relative(y);
    lemma_plain_end(x);
    assert(joined(a, joined(x, y)) =~= joined(joined(a, x), y));
}

/// What remains of a joined path behind a directory that lies between its two ends are the
/// names behind that directory.
pub proof fn law_strip_between(a: Seq<u8>, s: Seq<u8>, base: Seq<u8>, k: int)
    requires
        is_plain(s),
        0 <= k <= pieces(s).len(),
        components(base) == components(a) + pieces(s).take(k),
    ensures
        strip(joined(a, s), base) == Some(glue(pieces(s).skip(k))),
{
    let ps = pieces(s);
    let t = joined(a, s);
    lemma_pieces_len(s);
    lemma_glue_pieces(s);
    law_components_joined(a, s);
    if k == 0 {
        assert(components(base) =~= components(a));
        assert(ps.skip(0) =~= ps);
        law_strip_joined(a, s);
        law_strip_same(t, base, a);
    } else if k == ps.len() {
        assert(ps.take(k) =~= ps);
        law_strip_same(t, base, t);
        law_strip_self(t);
    } else {
        let x = glue(ps.take(k));
        let y = glue(ps.skip(k));
        lemma_pieces_names(s);
        assert forall|i: int, j: int|
            0 <= i < ps.take(k).len() && 0 <= j < ps.take(k)[i].len() implies #[trigger] ps.take(
            k,
        )[i][j] != SEP by {
            assert(ps[i][j] != SEP);
        }
        assert forall|i: int, j: int|
            0 <= i < ps.skip(k).len() && 0 <= j < ps.skip(k)[i].len() implies #[trigger] ps.skip(
            k,
        )[i][j] != SEP by {
            assert(ps[i + k][j] != SEP);
        }
        lemma_pieces_glue(ps.take(k));
        lemma_pieces_glue(ps.skip(k));
        assert forall|i: int| 0 <= i < pieces(x).len() implies !is_blank(#[trigger] pieces(x)[i]) by {
            assert(!is_blank(ps[i]));
        }
        assert forall|i: int| 0 <= i < pieces(y).len() implies !is_blank(#[trigger] pieces(y)[i]) by {
            assert(!is_blank(ps[i + k]));
        }
        lemma_pieces_join(x, y);
        assert(ps.take(k) + ps.skip(k) =~= ps);
        lemma_glue_pieces(x.push(SEP) + y);
        lemma_plain_relative(x);
        lemma_plain_relative(y);
        lemma_plain_end(x);
        assert(joined(x, y) == s);
        law_joined_thrice(a, x, y);
        law_components_joined(a, x);
        law_strip_same(t, base, joined(a, x));
        law_strip_joined(joined(a, x), y);
    }
}

/// The last name of a joined path is that of its second part.
pub proof fn law_joined_name(a: Seq<u8>, s: Seq<u8>)
    requires
        is_plain(s),
    ensures
        file_name(joined(a, s)) == file_name(s),
{
    let none = Seq::<Seq<u8>>::empty();
    lemma_pieces_len(s);
    lemma_plain_relative(s);
    lemma_kept_add(none, pieces(s));
    assert(none + pieces(s) =~= pieces(s));
    assert(kept(none) + pieces(s) =~= pieces(s));
    if a.len() > 0 {
        let front = lemma_pieces_joined(a, s);
        lemma_kept_add(front, pieces(s));
        assert(kept(pieces(joined(a, s))).last() == pieces(s).last());
    }
}

/// Paths with names only that have the same components are the same, letter for letter.
pub proof fn law_plain_same(a: Seq<u8>, b: Seq<u8>)
    requires
        is_plain(a) || a.len() == 0,
        is_plain(b) || b.len() == 0,
        components(a) == components(b),
    ensures
        a == b,
{
    lemma_plain_text(a);
    lemma_plain_text(b);
}

proof fn lemma_plain_text(a: Seq<u8>)
    requires
        is_plain(a) || a.len() == 0,
    ensures
        a == glue(components(a)),
{
    if a.len() == 0 {
        assert(a =~= Seq::<u8>::empty());
        lemma_empty_path();
    } else {
        law_components_joined(Seq::<u8>::empty(), a);
        lemma_glue_pieces(a);
    }
}

/// What remains of a path with names only behind one that leads to it, and is not all of
/// it, has names only.
pub proof fn law_plain_stripped(t: Seq<u8>, base: Seq<u8>)
    requires
        is_plain(t),
        starts_with(t, base),
        components(t) != components(base),
    ensures
        strip(t, base) matches Some(s) && is_plain(s),
{
    let none = Seq::<u8>::empty();
    let ps = pieces(t);
    let k = components(base).len() as int;
    law_components_joined(none, t);
    lemma_plain_relative(t);
    lemma_empty_path();
    assert(joined(none, t) == t);
    assert(components(base) =~= components(none) + ps.take(k));
    if k == ps.len() {
        assert(ps.take(k) =~= ps);
    }
    law_strip_between(none, t, base, k);
    let rest = ps.skip(k);
    lemma_pieces_names(t);
    assert forall|i: int, j: int| 0 <= i < rest.len() && 0 <= j < rest[i].len() implies #[trigger] rest[i][j]
        != SEP by {
        assert(ps[i + k][j] != SEP);
    }
    lemma_pieces_glue(rest);
    assert forall|i: int| 0 <= i < rest.len() implies !is_blank(#[trigger] rest[i]) by {
        assert(!is_blank(ps[i + k]));
    }
}

/// A path is absolute exactly where it starts with a separator.
pub proof fn law_absolute(t: Seq<u8>)
    ensures
        is_absolute(t) <==> t.len() > 0 && t[0] == 47,
{
}

/// Joining takes the second path from the first: an absolute one stands for itself, and
/// exactly one separator is put between the two where the first does not end in one.
pub proof fn law_joined_text(a: Seq<u8>, b: Seq<u8>)
    ensures
        b.len() > 0 && b[0] == 47 ==> joined(a, b) == b,
        a.len() == 0 ==> joined(a, b) == b,
        a.len() > 0 && a.last() == 47 && !(b.len() > 0 && b[0] == 47) ==> joined(a, b) == a + b,
        a.len() > 0 && a.last() != 47 && !(b.len() > 0 && b[0] == 47) ==> joined(a, b) == a
            + seq![47u8] + b,
{
    if a.len() > 0 && a.last() != 47 && !(b.len() > 0 && b[0] == 47) {
        assert(joined(a, b) =~= a + seq![47u8] + b);
    }
}

/// The pieces of a path are the texts between its separators: glued with them they are the
/// path, no separator is in any of them, and texts without one are the pieces of what they
/// are glued to.
pub proof fn law_pieces(t: Seq<u8>, ps: Seq<Seq<u8>>)
    ensures
        glue(pieces(t)) == t,
        forall|i: int, j: int|
            0 <= i < pieces(t).len() && 0 <= j < pieces(t)[i].len() ==> #[trigger] pieces(t)[i][j]
                != 47,
        ps.len() > 0 && (forall|i: int, j: int|
            0 <= i < ps.len() && 0 <= j < ps[i].len() ==> #[trigger] ps[i][j] != 47) ==> pieces(
            glue(ps),
        ) == ps,
{
    lemma_glue_pieces(t);
    lemma_pieces_names(t);
    if ps.len() > 0 && forall|i: int, j: int|
        0 <= i < ps.len() && 0 <= j < ps[i].len() ==> #[trigger] ps[i][j] != 47 {
        lemma_pieces_glue(ps);
    }
}

/// The components of a path are its pieces but for empty ones and, behind the first, `.`;
/// those of an absolute path come behind the root.
pub proof fn law_components(t: Seq<u8>, ps: Seq<Seq<u8>>, p: Seq<u8>)
    ensures
        is_absolute(t) ==> components(t) == seq![seq![47u8]] + kept(pieces(t)),
        !is_absolute(t) ==> components(t) == kept(pieces(t)),
        kept(Seq::<Seq<u8>>::empty()).len() == 0,
        p.len() == 0 ==> kept(ps.push(p)) == kept(ps),
        p.len() > 0 && p != seq![46u8] ==> kept(ps.push(p)) == kept(ps).push(p),
        p == seq![46u8] && ps.len() > 0 ==> kept(ps.push(p)) == kept(ps),
        p == seq![46u8] && ps.len() == 0 ==> kept(ps.push(p)) == kept(ps).push(p),
{
    assert(ps.push(p).drop_last() =~= ps);
    if p.len() == 1 && p[0] == 46 {
        assert(p =~= seq![46u8]);
    }
}

/// A path leads to another exactly where its components start with those of the first; then
/// and only then there is something left behind it.
pub proof fn law_starts_with(t: Seq<u8>, base: Seq<u8>)
    ensures
        starts_with(t, base) <==> components(base).is_prefix_of(components(t)),
        strip(t, base) is Some <==> components(base).is_prefix_of(components(t)),
{
    let a = components(base);
    let b = components(t);
    if a.is_prefix_of(b) {
        assert(b.take(a.len() as int) =~= a);
    }
    if starts_with(t, base) {
        assert(b.take(a.len() as int) == a);
        assert(a.is_prefix_of(b)) by {
            assert forall|i: int| 0 <= i < a.len() implies a[i] == b[i] by {
                assert(b.take(a.len() as int)[i] == b[i]);
            }
        }
    }
}

/// The last name of a path is its last component, where that is a name.
pub proof fn law_file_name(t: Seq<u8>)
    ensures
        file_name(t) matches Some(n) ==> components(t).len() > 0 && n == components(t).last() && n
            != seq![46u8] && n != seq![46u8, 46u8],
        file_name(t) is None ==> kept(pieces(t)).len() == 0 || components(t).last() == seq![46u8]
            || components(t).last() == seq![46u8, 46u8],
        parent(t) is None <==> kept(pieces(t)).len() == 0,
{
    let ks = kept(pieces(t));
    if ks.len() > 0 {
        assert(components(t).last() == ks.last());
        let n = ks.last();
        if is_dot(n) {
            assert(n =~= seq![46u8]);
        }
        if is_dot_dot(n) {
            assert(n =~= seq![46u8, 46u8]);
        }
    }
}

} // verus!
