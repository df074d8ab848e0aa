//! What holds of paths whose case does not count.

use crate::matcher::anchor;
use crate::path::{
    file_name, is_blank, is_dot, is_dot_dot, joined, keeps, kept, lemma_kept_names,
    lemma_pieces_len, pieces, SEP,
};
use crate::path_laws::is_plain;
use crate::rules::Rules;
use crate::text::{
    ascii_lowered, is_ascii_path, lemma_ascii_path, lemma_lower_twice, lower_byte, lower_bytes,
    lower_form, lowered, text_form,
};
use vstd::prelude::*;

verus! {

/// Pieces with their ASCII letters in lower case.
pub open spec fn lower_all(ps: Seq<Seq<u8>>) -> Seq<Seq<u8>> {
    ps.map_values(|p: Seq<u8>| lower_bytes(p))
}

/// Whether a path is folded name by name: where case counts it is not folded at all, and a
/// path in ASCII is folded letter by letter.
pub open spec fn folds(t: Seq<u8>, case_sensitive: bool) -> bool {
    case_sensitive || is_ascii_path(t)
}

proof fn lemma_pieces_lower(t: Seq<u8>)
    ensures
        pieces(lower_bytes(t)) == lower_all(pieces(t)),
    decreases t.len(),
{
    let low = lower_bytes(t);
    if t.len() > 0 {
        let f = t.drop_last();
        lemma_pieces_lower(f);
        lemma_pieces_len(f);
        assert(low.drop_last() =~= lower_bytes(f));
        assert(low.last() == lower_byte(t.last()));
        let ps = pieces(f);
        if t.last() == SEP {
            assert(lower_bytes(Seq::<u8>::empty()) =~= Seq::<u8>::empty());
            assert(pieces(low) =~= lower_all(pieces(t)));
        } else {
            assert(lower_bytes(ps.last().push(t.last())) =~= lower_bytes(ps.last()).push(
                low.last(),
            ));
            assert(pieces(low) =~= lower_all(pieces(t)));
        }
    } else {
        assert(low =~= Seq::<u8>::empty());
        assert(lower_bytes(Seq::<u8>::empty()) =~= Seq::<u8>::empty());
        assert(pieces(low) =~= lower_all(pieces(t)));
    }
}

proof fn lemma_kept_lower(ps: Seq<Seq<u8>>)
    ensures
        kept(lower_all(ps)) == lower_all(kept(ps)),
    decreases ps.len(),
{
    if ps.len() > 0 {
        lemma_kept_lower(ps.drop_last());
        assert(lower_all(ps).drop_last() =~= lower_all(ps.drop_last()));
        let i = ps.len() - 1;
        assert(lower_all(ps)[i] == lower_bytes(ps[i]));
        assert(keeps(lower_all(ps), i) == keeps(ps, i));
    }
    assert(kept(lower_all(ps)) =~= lower_all(kept(ps)));
}

proof fn lemma_ascii_pieces(t: Seq<u8>)
    requires
        is_ascii_path(t),
    ensures
        forall|i: int| 0 <= i < pieces(t).len() ==> is_ascii_path(#[trigger] pieces(t)[i]),
    decreases t.len(),
{
    if t.len() > 0 {
        let f = t.drop_last();
        assert forall|i: int| 0 <= i < f.len() implies #[trigger] f[i] < 128 by {
            assert(f[i] == t[i]);
        }
        lemma_ascii_pieces(f);
        lemma_pieces_len(f);
        assert(t[t.len() - 1] < 128);
        assert(is_ascii_path(pieces(f)[pieces(f).len() - 1]));
    }
}

/// The last name of a folded path is the last name of the path, folded.
proof fn lemma_file_name_lower(t: Seq<u8>)
    ensures
        match file_name(t) {
            Some(n) => file_name(lower_bytes(t)) == Some(lower_bytes(n)),
            None => file_name(lower_bytes(t)) is None,
        },
        is_ascii_path(t) && file_name(t) is Some ==> is_ascii_path(file_name(t)->0),
{
    lemma_pieces_lower(t);
    lemma_kept_lower(pieces(t));
    let ks = kept(pieces(t));
    if ks.len() > 0 {
        let n = ks.last();
        assert(lower_all(ks).last() == lower_bytes(n));
        assert(is_dot(lower_bytes(n)) == is_dot(n));
        assert(is_dot_dot(lower_bytes(n)) == is_dot_dot(n));
        if is_ascii_path(t) {
            lemma_ascii_pieces(t);
            lemma_kept_names(pieces(t));
            assert(ks[ks.len() - 1] == n);
            let i = choose|i: int| 0 <= i < pieces(t).len() && pieces(t)[i] == n;
            assert(is_ascii_path(pieces(t)[i]));
        }
    }
}

proof fn lemma_same_text(a: Seq<u8>, b: Seq<u8>)
    requires
        is_ascii_path(a),
        is_ascii_path(b),
        lower_bytes(a) == lower_bytes(b),
    ensures
        lower_form(text_form(a)) == lower_form(text_form(b)),
{
    lemma_ascii_path(a);
    lemma_ascii_path(b);
    let x = ascii_lowered(text_form(a));
    let y = ascii_lowered(text_form(b));
    assert(a.len() == lower_bytes(a).len());
    assert(b.len() == lower_bytes(b).len());
    assert forall|i: int| 0 <= i < a.len() implies x[i] == y[i] by {
        assert(lower_bytes(a)[i] == lower_bytes(b)[i]);
        assert(x[i] == lower_bytes(a)[i] as char);
        assert(y[i] == lower_bytes(b)[i] as char);
    }
    assert(x =~= y);
}

/// Folding a folded path changes nothing. Holds of paths in ASCII.
pub proof fn law_lower_twice(t: Seq<u8>)
    requires
        is_ascii_path(t),
    ensures
        lowered(lowered(t)) == lowered(t),
{
    lemma_ascii_path(t);
    lemma_lower_twice(t);
    lemma_ascii_path(lower_bytes(t));
}

/// Folding a joined path is folding its two parts. Holds of paths in ASCII.
pub proof fn law_lower_joined(a: Seq<u8>, b: Seq<u8>)
    requires
        is_ascii_path(a),
        is_ascii_path(b),
    ensures
        lowered(joined(a, b)) == joined(lowered(a), lowered(b)),
        is_ascii_path(joined(a, b)),
{
    let t = joined(a, b);
    assert forall|i: int| 0 <= i < t.len() implies #[trigger] t[i] < 128 by {}
    lemma_ascii_path(a);
    lemma_ascii_path(b);
    lemma_ascii_path(t);
    assert(lower_bytes(t) =~= joined(lower_bytes(a), lower_bytes(b)));
}

/// Where case does not count, paths in ASCII that differ in case alone are classified
/// alike.
pub proof fn law_case_alike(r: Rules, a: Seq<u8>, b: Seq<u8>, is_dir: bool)
    requires
        !r.case_sensitive,
        is_ascii_path(a),
        is_ascii_path(b),
        lowered(a) == lowered(b),
    ensures
        r.class_of(a, is_dir) == r.class_of(b, is_dir),
{
    lemma_ascii_path(a);
    lemma_ascii_path(b);
    lemma_file_name_lower(a);
    lemma_file_name_lower(b);
    if file_name(a) is Some {
        lemma_same_text(file_name(a)->0, file_name(b)->0);
    }
    law_names_alike(r, a, b, is_dir);
}

/// The same of any paths whose last names differ in case alone.
pub proof fn law_names_alike(r: Rules, a: Seq<u8>, b: Seq<u8>, is_dir: bool)
    requires
        !r.case_sensitive,
        lowered(a) == lowered(b),
        match (file_name(a), file_name(b)) {
            (Some(m), Some(n)) => lower_form(text_form(m)) == lower_form(text_form(n)),
            (None, None) => true,
            _ => false,
        },
    ensures
        r.class_of(a, is_dir) == r.class_of(b, is_dir),
{
}

/// A path that is folded name by name is matched as its parts are.
pub proof fn law_folds_joined(a: Seq<u8>, b: Seq<u8>, case_sensitive: bool)
    requires
        folds(a, case_sensitive),
        folds(b, case_sensitive),
    ensures
        anchor(joined(a, b), case_sensitive) == joined(
            anchor(a, case_sensitive),
            anchor(b, case_sensitive),
        ),
        folds(joined(a, b), case_sensitive),
{
    if !case_sensitive {
        law_lower_joined(a, b);
    }
}

/// A path with names only that is folded name by name still has names only.
pub proof fn law_folds_plain(t: Seq<u8>, case_sensitive: bool)
    requires
        folds(t, case_sensitive),
        is_plain(t),
    ensures
        is_plain(anchor(t, case_sensitive)),
{
    if !case_sensitive {
        lemma_ascii_path(t);
        lemma_pieces_lower(t);
        let low = lower_bytes(t);
        assert forall|i: int| 0 <= i < pieces(low).len() implies !is_blank(
            #[trigger] pieces(low)[i],
        ) by {
            assert(pieces(low)[i] == lower_bytes(pieces(t)[i]));
            assert(!is_blank(pieces(t)[i]));
        }
    }
}

} // verus!
