//! What holds of gitignore lines on their way to a matcher.

use crate::found::{behind_tilde, drop_target, patterns_for, text_of, DropAt};
use crate::matcher::{
    anchor, folded, gitignore_compiles, gitignore_matcher, gitignore_texts, is_dropped, line_text,
    pattern_matcher, readable, surviving,
};
use crate::path::{
    components, is_absolute, is_dot, is_dot_dot, joined, same_place, settled,
};
use crate::text::{
    ascii_lowered, is_ascii_path, is_ascii_text, lemma_ascii_path, lines, lower_bytes, lower_form,
    lowered, trimmed, without_bom,
};
use crate::text_laws::law_text_lines_readable;
use vstd::prelude::*;
use vstd::utf8::{decode_utf8, encode_utf8, valid_utf8};

verus! {

/// Text is matched as it is where case counts, and elsewhere, in ASCII, in lower case. So
/// is a directory.
pub proof fn law_folded(t: Seq<char>, dir: Seq<u8>)
    ensures
        folded(t, true) == t,
        folded(t, false) == lower_form(t),
        is_ascii_text(t) ==> folded(t, false) == ascii_lowered(t),
        anchor(dir, true) == dir,
        anchor(dir, false) == lowered(dir),
        is_ascii_path(dir) ==> anchor(dir, false) == lower_bytes(dir),
{
    if is_ascii_path(dir) {
        lemma_ascii_path(dir);
    }
}

/// A line is dropped exactly where a pattern to drop is the line without the whitespace
/// around it; where case does not count, in ASCII, but for the case of letters.
pub proof fn law_dropped(line: Seq<char>, drops: Seq<Seq<char>>)
    ensures
        is_dropped(line, drops, true) <==> drops.contains(trimmed(line)),
        is_ascii_text(trimmed(line)) && (forall|i: int|
            0 <= i < drops.len() ==> is_ascii_text(#[trigger] drops[i])) ==> (is_dropped(
            line,
            drops,
            false,
        ) <==> exists|i: int|
            0 <= i < drops.len() && ascii_lowered(#[trigger] drops[i]) == ascii_lowered(
                trimmed(line),
            )),
{
    if is_dropped(line, drops, true) {
        let i = choose|i: int|
            0 <= i < drops.len() && folded(#[trigger] drops[i], true) == folded(
                trimmed(line),
                true,
            );
        assert(drops[i] == trimmed(line));
    }
    if drops.contains(trimmed(line)) {
        let i = choose|i: int| 0 <= i < drops.len() && drops[i] == trimmed(line);
        assert(folded(drops[i], true) == folded(trimmed(line), true));
    }
    if is_ascii_text(trimmed(line)) && forall|i: int|
        0 <= i < drops.len() ==> is_ascii_text(#[trigger] drops[i]) {
        assert forall|i: int| 0 <= i < drops.len() implies folded(#[trigger] drops[i], false)
            == ascii_lowered(drops[i]) by {}
        if is_dropped(line, drops, false) {
            let i = choose|i: int|
                0 <= i < drops.len() && folded(#[trigger] drops[i], false) == folded(
                    trimmed(line),
                    false,
                );
            assert(ascii_lowered(drops[i]) == ascii_lowered(trimmed(line)));
        }
        if exists|i: int|
            0 <= i < drops.len() && ascii_lowered(#[trigger] drops[i]) == ascii_lowered(
                trimmed(line),
            ) {
            let i = choose|i: int|
                0 <= i < drops.len() && ascii_lowered(#[trigger] drops[i]) == ascii_lowered(
                    trimmed(line),
                );
            assert(folded(drops[i], false) == folded(trimmed(line), false));
        }
    }
}

/// Each line is judged on its own: it is gone where it is dropped, and reaches the matcher
/// as it is matched elsewhere, in its place.
pub proof fn law_surviving(
    a: Seq<Seq<char>>,
    line: Seq<char>,
    b: Seq<Seq<char>>,
    drops: Seq<Seq<char>>,
    case_sensitive: bool,
)
    ensures
        surviving(Seq::<Seq<char>>::empty(), drops, case_sensitive).len() == 0,
        surviving(seq![line], drops, case_sensitive) == (if is_dropped(
            line,
            drops,
            case_sensitive,
        ) {
            Seq::<Seq<char>>::empty()
        } else {
            seq![folded(line, case_sensitive)]
        }),
        surviving(a + b, drops, case_sensitive) == surviving(a, drops, case_sensitive)
            + surviving(b, drops, case_sensitive),
    decreases b.len(),
{
    let none = Seq::<Seq<char>>::empty();
    assert(seq![line].drop_last() =~= none);
    assert(surviving(none, drops, case_sensitive) =~= none);
    assert(none.push(folded(line, case_sensitive)) =~= seq![folded(line, case_sensitive)]);
    if b.len() == 0 {
        assert(a + b =~= a);
        assert(b =~= none);
        assert(surviving(a, drops, case_sensitive) + none =~= surviving(
            a,
            drops,
            case_sensitive,
        ));
    } else {
        law_surviving(a, line, b.drop_last(), drops, case_sensitive);
        assert((a + b).drop_last() =~= a + b.drop_last());
        assert((a + b).last() == b.last());
        assert(surviving(a + b, drops, case_sensitive) =~= surviving(a, drops, case_sensitive)
            + surviving(b, drops, case_sensitive));
    }
}

/// Lines are read up to the first that is no UTF-8.
pub proof fn law_readable(ls: Seq<Seq<u8>>)
    ensures
        readable(ls) <= ls.len(),
        forall|i: int| 0 <= i < readable(ls) ==> valid_utf8(#[trigger] ls[i]),
        readable(ls) < ls.len() ==> !valid_utf8(ls[readable(ls) as int]),
    decreases ls.len(),
{
    if ls.len() > 0 {
        let front = ls.drop_last();
        law_readable(front);
        assert forall|i: int| 0 <= i < readable(ls) implies valid_utf8(#[trigger] ls[i]) by {
            if i < front.len() {
                assert(front[i] == ls[i]);
            }
        }
        if readable(front) < front.len() {
            assert(front[readable(front) as int] == ls[readable(front) as int]);
        }
    }
}

/// A gitignore file gives its lines, in order, as text: where case counts up to the first
/// that is no UTF-8, elsewhere all of them or, where the file is no UTF-8, none. A file that
/// cannot be read has no lines where case counts, and is passed over elsewhere.
pub proof fn law_gitignore_texts(c: Seq<u8>, case_sensitive: bool)
    ensures
        gitignore_texts(None, true) matches Some(ts) && ts.len() == 0,
        gitignore_texts(None, false) is None,
        gitignore_texts(Some(c), case_sensitive) is None <==> !case_sensitive && !valid_utf8(c),
        gitignore_texts(Some(c), case_sensitive) matches Some(ts) ==> {
            &&& ts.len() == readable(lines(c))
            &&& valid_utf8(c) ==> ts.len() == lines(c).len()
            &&& forall|i: int|
                0 < i < ts.len() ==> encode_utf8(#[trigger] ts[i]) == lines(c)[i]
            &&& ts.len() > 0 && !case_sensitive ==> encode_utf8(ts[0]) == lines(c)[0]
            &&& ts.len() > 0 && case_sensitive ==> ts[0] == without_bom(decode_utf8(lines(c)[0]))
        },
{
    law_readable(lines(c));
    if valid_utf8(c) {
        law_text_lines_readable(c);
    }
    if let Some(ts) = gitignore_texts(Some(c), case_sensitive) {
        assert forall|i: int| 0 < i < ts.len() implies encode_utf8(#[trigger] ts[i])
            == lines(c)[i] by {
            assert(ts[i] == line_text(lines(c), i, case_sensitive));
            vstd::utf8::decode_utf8_encode_utf8(lines(c)[i]);
        }
        if ts.len() > 0 {
            assert(ts[0] == line_text(lines(c), 0, case_sensitive));
            vstd::utf8::decode_utf8_encode_utf8(lines(c)[0]);
        }
    }
}

/// The matcher of a gitignore file is anchored in its directory and has its lines but for
/// those that are dropped. There is one exactly where the lines can be compiled.
pub proof fn law_gitignore_matcher(
    dir: Seq<u8>,
    content: Option<Seq<u8>>,
    drops: Seq<Seq<char>>,
    case_sensitive: bool,
)
    ensures
        match gitignore_texts(content, case_sensitive) {
            Some(ts) => match gitignore_matcher(dir, content, drops, case_sensitive) {
                Some(m) => {
                    &&& m.dir == anchor(dir, case_sensitive)
                    &&& gitignore_compiles(m.lines)
                    &&& m.lines == surviving(ts, drops, case_sensitive)
                    &&& drops.len() == 0 ==> m.lines.len() == ts.len() && forall|i: int|
                        0 <= i < ts.len() ==> #[trigger] m.lines[i] == folded(ts[i], case_sensitive)
                },
                None => !gitignore_compiles(surviving(ts, drops, case_sensitive)),
            },
            None => gitignore_matcher(dir, content, drops, case_sensitive) is None,
        },
{
    if let Some(ts) = gitignore_texts(content, case_sensitive) {
        if drops.len() == 0 {
            crate::laws::law_nothing_dropped(ts, drops, case_sensitive);
        }
    }
}

/// The matcher of a section is anchored in its directory and has its patterns, in order.
/// There is one exactly where there are patterns and they can be compiled.
pub proof fn law_pattern_matcher(dir: Seq<u8>, patterns: Seq<Seq<char>>, case_sensitive: bool)
    ensures
        patterns.len() == 0 ==> pattern_matcher(dir, patterns, case_sensitive) is None,
        pattern_matcher(dir, patterns, case_sensitive) matches Some(m) ==> {
            &&& m.dir == anchor(dir, case_sensitive)
            &&& m.lines.len() == patterns.len()
            &&& gitignore_compiles(m.lines)
            &&& forall|i: int|
                0 <= i < patterns.len() ==> #[trigger] m.lines[i] == folded(
                    patterns[i],
                    case_sensitive,
                )
        },
        patterns.len() > 0 && pattern_matcher(dir, patterns, case_sensitive) is None
            ==> !gitignore_compiles(
            Seq::new(patterns.len(), |i: int| folded(patterns[i], case_sensitive)),
        ),
{
    let ls = patterns.map_values(|p: Seq<char>| folded(p, case_sensitive));
    assert(ls =~= Seq::new(patterns.len(), |i: int| folded(patterns[i], case_sensitive)));
}

/// Only patterns that are meant for a file are taken out of it.
pub proof fn law_drop_only(ds: Seq<DropAt>, file: Seq<u8>, p: Seq<char>)
    requires
        patterns_for(ds, file).contains(p),
    ensures
        exists|i: int|
            0 <= i < ds.len() && same_place((#[trigger] ds[i]).file, file)
                && ds[i].patterns.contains(p),
    decreases ds.len(),
{
    let front = ds.drop_last();
    let before = patterns_for(front, file);
    let all = patterns_for(ds, file);
    let k = choose|k: int| 0 <= k < all.len() && all[k] == p;
    assert(ds[ds.len() - 1] == ds.last());
    if k < before.len() {
        assert(before[k] == p);
        law_drop_only(front, file, p);
        let i = choose|i: int|
            0 <= i < front.len() && same_place((#[trigger] front[i]).file, file)
                && front[i].patterns.contains(p);
        assert(ds[i] == front[i]);
    } else {
        assert(ds.last().patterns[k - before.len()] == p);
    }
}

/// The file that patterns are taken out of: the `.gitignore` at the source root where none
/// is named, an absolute path as it is, a name from the home directory behind `~/`, and any
/// other from the source root.
pub proof fn law_drop_target(g: Seq<char>, root: Seq<u8>, home: Option<Seq<u8>>, rest: Seq<u8>)
    ensures
        drop_target(None, root, home) == joined(root, encode_utf8(".gitignore"@)),
        is_absolute(encode_utf8(g)) ==> drop_target(Some(g), root, home) == encode_utf8(g),
        encode_utf8(g) == seq![126u8, 47u8] + rest && home is Some ==> drop_target(
            Some(g),
            root,
            home,
        ) == joined(home->0, rest),
        home is None || !(encode_utf8(g).len() >= 2 && encode_utf8(g)[0] == 126 && encode_utf8(g)[1]
            == 47) ==> drop_target(Some(g), root, home) == joined(root, encode_utf8(g)),
{
    let t = encode_utf8(g);
    if t == seq![126u8, 47u8] + rest {
        assert(t.skip(2) =~= rest);
        assert(behind_tilde(t) == Some(rest));
    }
}

/// Paths without `.` and `..` lead to the same place exactly where they have the same
/// components.
pub proof fn law_same_place_names(a: Seq<u8>, b: Seq<u8>)
    requires
        forall|i: int|
            0 <= i < components(a).len() ==> !is_dot(#[trigger] components(a)[i]) && !is_dot_dot(
                components(a)[i],
            ),
        forall|i: int|
            0 <= i < components(b).len() ==> !is_dot(#[trigger] components(b)[i]) && !is_dot_dot(
                components(b)[i],
            ),
    ensures
        same_place(a, b) <==> components(a) == components(b),
{
    lemma_settled_names(components(a));
    lemma_settled_names(components(b));
}

proof fn lemma_settled_names(cs: Seq<Seq<u8>>)
    requires
        forall|i: int|
            0 <= i < cs.len() ==> !is_dot(#[trigger] cs[i]) && !is_dot_dot(cs[i]),
    ensures
        settled(cs) == cs,
    decreases cs.len(),
{
    if cs.len() > 0 {
        let front = cs.drop_last();
        assert forall|i: int| 0 <= i < front.len() implies !is_dot(#[trigger] front[i])
            && !is_dot_dot(front[i]) by {
            assert(front[i] == cs[i]);
        }
        lemma_settled_names(front);
        assert(cs[cs.len() - 1] == cs.last());
        assert(front.push(cs.last()) =~= cs);
    }
}

/// The text of a file is what its bytes encode; one that is not there or no UTF-8 has none.
pub proof fn law_text_of(t: Seq<char>, c: Seq<u8>)
    ensures
        text_of(Some(encode_utf8(t))) == Some(t),
        text_of(None) is None,
        text_of(Some(c)) is None <==> !valid_utf8(c),
{
    vstd::utf8::encode_utf8_valid_utf8(t);
    vstd::utf8::encode_utf8_decode_utf8(t);
}

} // verus!
