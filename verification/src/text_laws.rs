//! What holds of text: its lines, its case and what is taken off it.

use crate::matcher::readable;
use crate::text::{
    ascii_lower, chomp, is_ascii_text, is_space, lines, lossy_text, lower_byte, lower_form,
    lowercase, lowered, rows, text_form, trim_end, trim_start, trimmed, without_bom, CR, LF,
};
use vstd::prelude::*;
use vstd::utf8::{encode_utf8, is_continuation_byte, valid_utf8};

verus! {

proof fn lemma_rows_len(t: Seq<u8>)
    ensures
        rows(t).len() >= 1,
    decreases t.len(),
{
    if t.len() > 0 {
        lemma_rows_len(t.drop_last());
    }
}

proof fn lemma_rows_join(a: Seq<u8>, b: Seq<u8>)
    ensures
        rows(a.push(LF) + b) == rows(a) + rows(b),
    decreases b.len(),
{
    let t = a.push(LF) + b;
    lemma_rows_len(a);
    if b.len() == 0 {
        assert(t =~= a.push(LF));
        assert(t.drop_last() =~= a);
        assert(rows(t) =~= rows(a) + rows(b));
    } else {
        let f = b.drop_last();
        lemma_rows_join(a, f);
        lemma_rows_len(f);
        assert(t.drop_last() =~= a.push(LF) + f);
        assert(t.last() == b.last());
        assert(rows(t) =~= rows(a) + rows(b));
    }
}

proof fn lemma_single_row(t: Seq<u8>)
    requires
        forall|i: int| 0 <= i < t.len() ==> #[trigger] t[i] != LF,
    ensures
        rows(t) == seq![t],
    decreases t.len(),
{
    if t.len() > 0 {
        let f = t.drop_last();
        assert forall|i: int| 0 <= i < f.len() implies #[trigger] f[i] != LF by {
            assert(f[i] == t[i]);
        }
        lemma_single_row(f);
        assert(t.last() != LF);
        assert(f.push(t.last()) =~= t);
        assert(rows(t) =~= seq![t]);
    } else {
        assert(t =~= Seq::<u8>::empty());
    }
}

/// Text can be cut before an ASCII character.
proof fn lemma_cut_valid(t: Seq<u8>, i: int)
    requires
        valid_utf8(t),
        0 <= i < t.len(),
        t[i] < 128,
    ensures
        valid_utf8(t.subrange(0, i)),
        valid_utf8(t.subrange(i + 1, t.len() as int)),
{
    vstd::utf8::is_char_boundary_iff_not_is_continuation_byte(t, i);
    let b = t[i];
    assert(!is_continuation_byte(b));
    vstd::utf8::valid_utf8_split(t, i);
    let rest = t.subrange(i, t.len() as int);
    assert(rest[0] == b);
    assert(vstd::utf8::is_leading_byte_width_1(b));
    assert(vstd::utf8::pop_first_scalar(rest) =~= t.subrange(i + 1, t.len() as int));
}

proof fn lemma_rows_valid(t: Seq<u8>)
    requires
        valid_utf8(t),
    ensures
        forall|i: int| 0 <= i < rows(t).len() ==> valid_utf8(#[trigger] rows(t)[i]),
    decreases t.len(),
{
    if exists|i: int| 0 <= i < t.len() && #[trigger] t[i] == LF {
        let i = choose|i: int| 0 <= i < t.len() && #[trigger] t[i] == LF;
        let a = t.subrange(0, i);
        let b = t.subrange(i + 1, t.len() as int);
        lemma_cut_valid(t, i);
        assert(t =~= a.push(LF) + b);
        lemma_rows_join(a, b);
        lemma_rows_valid(a);
        lemma_rows_valid(b);
        assert forall|j: int| 0 <= j < rows(t).len() implies valid_utf8(#[trigger] rows(t)[j]) by {
            if j < rows(a).len() {
                assert(rows(t)[j] == rows(a)[j]);
            } else {
                assert(rows(t)[j] == rows(b)[j - rows(a).len()]);
            }
        }
    } else {
        lemma_single_row(t);
    }
}

proof fn lemma_all_readable(ls: Seq<Seq<u8>>)
    requires
        forall|i: int| 0 <= i < ls.len() ==> valid_utf8(#[trigger] ls[i]),
    ensures
        readable(ls) == ls.len(),
    decreases ls.len(),
{
    if ls.len() > 0 {
        let f = ls.drop_last();
        assert forall|i: int| 0 <= i < f.len() implies valid_utf8(#[trigger] f[i]) by {
            assert(f[i] == ls[i]);
        }
        lemma_all_readable(f);
        assert(valid_utf8(ls[ls.len() - 1]));
    }
}

/// Every line of a file that is UTF-8 is UTF-8, so that all of its lines are read.
pub proof fn law_text_lines_readable(t: Seq<u8>)
    requires
        valid_utf8(t),
    ensures
        forall|i: int| 0 <= i < lines(t).len() ==> valid_utf8(#[trigger] lines(t)[i]),
        readable(lines(t)) == lines(t).len(),
{
    let rs = rows(t);
    lemma_rows_len(t);
    lemma_rows_valid(t);
    assert forall|i: int| 0 <= i < lines(t).len() implies valid_utf8(#[trigger] lines(t)[i]) by {
        let r = rs[i];
        assert(valid_utf8(rs[i]));
        if i < rs.len() - 1 {
            assert(lines(t)[i] == chomp(r));
            if r.len() > 0 && r.last() == CR {
                lemma_cut_valid(r, r.len() - 1);
                assert(r.subrange(0, r.len() - 1) =~= r.drop_last());
            }
        } else {
            assert(lines(t)[i] == r);
        }
    }
    lemma_all_readable(lines(t));
}

/// Whether every character is whitespace.
pub open spec fn all_space(t: Seq<char>) -> bool {
    forall|i: int| 0 <= i < t.len() ==> is_space(#[trigger] t[i])
}

proof fn lemma_trim_start(t: Seq<char>) -> (n: int)
    ensures
        0 <= n <= t.len(),
        trim_start(t) == t.skip(n),
        all_space(t.take(n)),
        n < t.len() ==> !is_space(t[n]),
    decreases t.len(),
{
    if t.len() > 0 && is_space(t[0]) {
        let rest = t.drop_first();
        let n = lemma_trim_start(rest);
        assert(rest.skip(n) =~= t.skip(n + 1));
        assert forall|i: int| 0 <= i < n + 1 implies is_space(#[trigger] t.take(n + 1)[i]) by {
            if i > 0 {
                assert(is_space(rest.take(n)[i - 1]));
            }
        }
        n + 1
    } else {
        assert(t.skip(0) =~= t);
        0
    }
}

proof fn lemma_trim_end(t: Seq<char>) -> (n: int)
    ensures
        0 <= n <= t.len(),
        trim_end(t) == t.take(n),
        all_space(t.skip(n)),
        n > 0 ==> !is_space(t[n - 1]),
    decreases t.len(),
{
    if t.len() > 0 && is_space(t.last()) {
        let front = t.drop_last();
        let n = lemma_trim_end(front);
        assert(front.take(n) =~= t.take(n));
        assert forall|i: int| 0 <= i < t.len() - n implies is_space(#[trigger] t.skip(n)[i]) by {
            if i < front.len() - n {
                assert(is_space(front.skip(n)[i]));
            }
        }
        n
    } else {
        assert(t.take(t.len() as int) =~= t);
        t.len() as int
    }
}

/// Trimming takes whitespace off both ends, all of it, and nothing else.
pub proof fn law_trimmed(t: Seq<char>)
    ensures
        exists|a: Seq<char>, b: Seq<char>|
            #![trigger all_space(a), all_space(b)]
            all_space(a) && all_space(b) && t == a + trimmed(t) + b,
        trimmed(t).len() > 0 ==> !is_space(trimmed(t)[0]) && !is_space(trimmed(t).last()),
{
    let n = lemma_trim_start(t);
    let rest = t.skip(n);
    let k = lemma_trim_end(rest);
    let a = t.take(n);
    let b = rest.skip(k);
    assert(t =~= a + trimmed(t) + b);
    assert(all_space(a) && all_space(b));
    if k > 0 {
        assert(rest[0] == t[n]);
    }
}

/// Nothing is left of a text exactly where it is all whitespace.
pub proof fn law_blank_trimmed(t: Seq<char>)
    ensures
        trimmed(t).len() == 0 <==> all_space(t),
{
    let n = lemma_trim_start(t);
    let rest = t.skip(n);
    let k = lemma_trim_end(rest);
    if all_space(t) {
        if n < t.len() {
            assert(is_space(t[n]));
        }
    } else if trimmed(t).len() == 0 {
        let i = choose|i: int| 0 <= i < t.len() && !is_space(#[trigger] t[i]);
        if i < n {
            assert(is_space(t.take(n)[i]));
        } else {
            assert(is_space(rest.skip(k)[i - n - k]));
        }
    }
}

proof fn lemma_skip_boms(t: Seq<char>) -> (n: int)
    ensures
        0 <= n <= t.len(),
        without_bom(t) == t.skip(n),
        forall|i: int| 0 <= i < n ==> #[trigger] t[i] == '\u{feff}',
        n < t.len() ==> t[n] != '\u{feff}',
    decreases t.len(),
{
    if t.len() > 0 && t[0] == '\u{feff}' {
        let rest = t.drop_first();
        let n = lemma_skip_boms(rest);
        assert(rest.skip(n) =~= t.skip(n + 1));
        assert forall|i: int| 0 <= i < n + 1 implies #[trigger] t[i] == '\u{feff}' by {
            if i > 0 {
                assert(rest[i - 1] == '\u{feff}');
            }
        }
        n + 1
    } else {
        assert(t.skip(0) =~= t);
        0
    }
}

/// Byte order marks are taken off the front, all of them, and nothing else is.
pub proof fn law_without_bom(t: Seq<char>)
    ensures
        exists|n: int|
            0 <= n <= t.len() && without_bom(t) == #[trigger] t.skip(n) && forall|i: int|
                0 <= i < n ==> #[trigger] t[i] == '\u{feff}',
        without_bom(t).len() > 0 ==> without_bom(t)[0] != '\u{feff}',
{
    let n = lemma_skip_boms(t);
    assert(without_bom(t) == t.skip(n));
}

/// Lower case is told letter by letter in ASCII: the letters from `A` to `Z` become those
/// from `a` to `z`, and nothing else changes.
pub proof fn law_lower_letters(b: u8, c: char)
    ensures
        65 <= b <= 90 ==> lower_byte(b) == b + 32,
        !(65 <= b <= 90) ==> lower_byte(b) == b,
        'A' <= c && c <= 'Z' ==> ascii_lower(c) as int == c as int + 32,
        !('A' <= c && c <= 'Z') ==> ascii_lower(c) == c,
{
}

/// The lines of a text with a line feed in it are those up to it, then those behind it.
pub proof fn law_lines_split(t: Seq<u8>, u: Seq<u8>)
    ensures
        lines(t.push(10) + u) == lines(t.push(10)) + lines(u),
{
    lemma_rows_join(t, u);
    lemma_rows_join(t, Seq::<u8>::empty());
    lemma_rows_len(u);
    lemma_rows_len(t);
    let f = |r: Seq<u8>| chomp(r);
    let none = Seq::<u8>::empty();
    assert(t.push(10) + none =~= t.push(10));
    let rt = rows(t);
    let ru = rows(u);
    assert(rows(t.push(10) + u) == rt + ru);
    assert(rows(t.push(10)) == rt + rows(none));
    assert((rt + rows(none)).drop_last() =~= rt);
    assert((rt + ru).drop_last() =~= rt + ru.drop_last());
    assert((rt + ru).last() == ru.last());
    assert((rt + ru.drop_last()).map_values(f) =~= rt.map_values(f) + ru.drop_last().map_values(f));
    assert(lines(t.push(10) + u) =~= lines(t.push(10)) + lines(u));
}

/// A text without a line feed is one line, or none where it is empty; with one behind it,
/// it is one line, without a carriage return in front of the line feed.
pub proof fn law_single_line(t: Seq<u8>)
    requires
        forall|i: int| 0 <= i < t.len() ==> #[trigger] t[i] != 10,
    ensures
        t.len() == 0 ==> lines(t) == Seq::<Seq<u8>>::empty(),
        t.len() > 0 ==> lines(t) == seq![t],
        (t.len() == 0 || t.last() != 13) ==> lines(t.push(10)) == seq![t],
        t.len() > 0 && t.last() == 13 ==> lines(t.push(10)) == seq![t.drop_last()],
{
    let f = |r: Seq<u8>| chomp(r);
    lemma_single_row(t);
    assert(t.push(10).drop_last() =~= t);
    assert(rows(t) == seq![t]);
    assert(seq![t].drop_last() =~= Seq::<Seq<u8>>::empty());
    assert(Seq::<Seq<u8>>::empty().map_values(f) =~= Seq::<Seq<u8>>::empty());
    assert(rows(t.push(10)) =~= seq![t, Seq::<u8>::empty()]);
    assert(seq![t, Seq::<u8>::empty()].drop_last() =~= seq![t]);
    assert(seq![t].map_values(f) =~= seq![chomp(t)]);
    if t.len() > 0 {
        assert(lines(t) =~= seq![t]);
    }
    assert(lines(t.push(10)) =~= seq![chomp(t)]);
}

/// Bytes that are UTF-8 are read as the text that they encode, and others as
/// `String::from_utf8_lossy` reads them. Text outside ASCII is put in lower case as
/// `str::to_lowercase` does it, and a path as its text is.
pub proof fn law_text_forms(t: Seq<char>, b: Seq<u8>)
    ensures
        text_form(encode_utf8(t)) == t,
        valid_utf8(b) ==> encode_utf8(text_form(b)) == b,
        !valid_utf8(b) ==> text_form(b) == lossy_text(b),
        !is_ascii_text(t) ==> lower_form(t) == lowercase(t),
        is_ascii_text(t) ==> lower_form(t).len() == t.len() && forall|i: int|
            0 <= i < t.len() ==> #[trigger] lower_form(t)[i] == ascii_lower(t[i]),
        lowered(b) == encode_utf8(lower_form(text_form(b))),
{
    vstd::utf8::encode_utf8_valid_utf8(t);
    vstd::utf8::encode_utf8_decode_utf8(t);
    if valid_utf8(b) {
        vstd::utf8::decode_utf8_encode_utf8(b);
    }
}

} // verus!
