//! What holds of configurations as they are written and read.

use crate::config::{
    config_fault, config_of, drop_block, drop_of, drops_of, escape, escaped, hex_digit, is_bare,
    quoted, quoted_list, rename_lines, rename_of, renames_block, renames_of, section_of,
    shadowconfig_of, shadowconfig_text, with_block, with_drops, Config, ConfigError, Drops, Rename,
};
use crate::toml_tree::{field, lookup, text_list, toml_document, TomlEntry, TomlTree};
use vstd::prelude::*;

verus! {

/// The value of a hexadecimal digit.
pub open spec fn hex_value(c: char) -> int {
    if '0' <= c && c <= '9' {
        c as int - 48
    } else {
        c as int - 87
    }
}

/// The text that the inside of a TOML string stands for.
pub open spec fn unescaped(s: Seq<char>) -> Option<Seq<char>>
    decreases s.len(),
{
    if s.len() == 0 {
        Some(Seq::<char>::empty())
    } else if s[0] == '\\' {
        if s.len() >= 2 && (s[1] == '"' || s[1] == '\\') {
            match unescaped(s.skip(2)) {
                Some(rest) => Some(seq![s[1]] + rest),
                None => None,
            }
        } else if s.len() >= 6 && s[1] == 'u' {
            let code = 4096 * hex_value(s[2]) + 256 * hex_value(s[3]) + 16 * hex_value(s[4])
                + hex_value(s[5]);
            match unescaped(s.skip(6)) {
                Some(rest) => Some(seq![(code as u32) as char] + rest),
                None => None,
            }
        } else {
            None
        }
    } else if s[0] == '"' || (s[0] < ' ' && s[0] != '\t') || s[0] == '\x7f' {
        None
    } else {
        match unescaped(s.skip(1)) {
            Some(rest) => Some(seq![s[0]] + rest),
            None => None,
        }
    }
}

/// Text is written character by character.
pub proof fn law_escaped_split(a: Seq<char>, b: Seq<char>)
    ensures
        escaped(a + b) == escaped(a) + escaped(b),
    decreases b.len(),
{
    if b.len() == 0 {
        assert(a + b =~= a);
        assert(escaped(a) + escaped(b) =~= escaped(a));
    } else {
        law_escaped_split(a, b.drop_last());
        assert((a + b).drop_last() =~= a + b.drop_last());
        assert((a + b).last() == b.last());
        assert(escaped(a + b) =~= escaped(a) + escaped(b));
    }
}

proof fn lemma_hex(n: int)
    requires
        0 <= n < 16,
    ensures
        hex_digit(n).len() == 1,
        hex_value(hex_digit(n)[0]) == n,
{
    reveal_strlit("0123456789abcdef");
    assert(hex_digit(n)[0] == "0123456789abcdef"@[n]);
}

proof fn lemma_unescape_one(c: char, rest: Seq<char>)
    ensures
        unescaped(escape(c) + rest) == (match unescaped(rest) {
            Some(t) => Some(seq![c] + t),
            None => None,
        }),
{
    let s = escape(c) + rest;
    if is_bare(c) {
        assert(s.skip(1) =~= rest);
    } else if c == '"' {
        reveal_strlit("\\\"");
        assert(s.skip(2) =~= rest);
    } else if c == '\\' {
        reveal_strlit("\\\\");
        assert(s.skip(2) =~= rest);
    } else {
        reveal_strlit("\\u00");
        let n = c as int;
        lemma_hex(n / 16);
        lemma_hex(n % 16);
        assert(s.len() >= 6);
        assert(s[0] == '\\' && s[1] == 'u' && s[2] == '0' && s[3] == '0');
        assert(s[4] == hex_digit(n / 16)[0]);
        assert(s[5] == hex_digit(n % 16)[0]);
        assert(s.skip(6) =~= rest);
        let code = 4096 * hex_value(s[2]) + 256 * hex_value(s[3]) + 16 * hex_value(s[4])
            + hex_value(s[5]);
        assert(code == n);
        assert((code as u32) as char == c);
    }
}

/// What is written of a text stands for that text.
pub proof fn law_escaped_reads_back(t: Seq<char>)
    ensures
        unescaped(escaped(t)) == Some(t),
    decreases t.len(),
{
    if t.len() > 0 {
        let one = seq![t[0]];
        let rest = t.skip(1);
        assert(one + rest =~= t);
        law_escaped_split(one, rest);
        assert(one.drop_last() =~= Seq::<char>::empty());
        assert(escaped(one) =~= escape(t[0])) by {
            reveal_with_fuel(escaped, 2);
        }
        law_escaped_reads_back(rest);
        lemma_unescape_one(t[0], escaped(rest));
    } else {
        assert(t =~= Seq::<char>::empty());
    }
}

/// Different texts are written differently.
pub proof fn law_escaped_distinct(a: Seq<char>, b: Seq<char>)
    requires
        escaped(a) == escaped(b),
    ensures
        a == b,
{
    law_escaped_reads_back(a);
    law_escaped_reads_back(b);
}

/// A quoted text is the text between two quotes.
pub proof fn law_quoted(t: Seq<char>)
    ensures
        quoted(t) == seq!['"'] + escaped(t) + seq!['"'],
{
    reveal_strlit("\"");
    assert(quoted(t) =~= seq!['"'] + escaped(t) + seq!['"']);
}

/// Every text of a list is written, in order, with commas between them.
pub proof fn law_quoted_list(a: Seq<Seq<char>>, t: Seq<char>, b: Seq<Seq<char>>)
    requires
        a.len() > 0,
        b.len() > 0,
    ensures
        quoted_list(seq![t]) == quoted(t),
        quoted_list(a + b) == quoted_list(a) + seq![',', ' '] + quoted_list(b),
    decreases b.len(),
{
    reveal_strlit(", ");
    assert(", "@ =~= seq![',', ' ']);
    assert((a + b).drop_last() =~= a + b.drop_last());
    assert((a + b).last() == b.last());
    if b.len() == 1 {
        assert(a + b.drop_last() =~= a);
        assert(b[0] == b.last());
    } else {
        law_quoted_list(a, t, b.drop_last());
        assert(quoted_list(a + b) =~= quoted_list(a) + seq![',', ' '] + quoted_list(b));
    }
}

/// Every rename is written, in order.
pub proof fn law_rename_lines(a: Seq<Rename>, b: Seq<Rename>)
    ensures
        rename_lines(a + b) == rename_lines(a) + rename_lines(b),
        a.len() == 1 ==> rename_lines(a) == "  { from = "@ + quoted(a[0].from) + ", to = "@
            + quoted(a[0].to) + ", at = "@ + quoted(a[0].at) + " },\n"@,
    decreases b.len(),
{
    if a.len() == 1 {
        assert(a.drop_last() =~= Seq::<Rename>::empty());
        assert(rename_lines(a) =~= crate::config::rename_line(a[0])) by {
            reveal_with_fuel(rename_lines, 2);
        }
    }
    if b.len() == 0 {
        assert(a + b =~= a);
        assert(rename_lines(a) + rename_lines(b) =~= rename_lines(a));
    } else {
        law_rename_lines(a, b.drop_last());
        assert((a + b).drop_last() =~= a + b.drop_last());
        assert((a + b).last() == b.last());
        assert(rename_lines(a + b) =~= rename_lines(a) + rename_lines(b));
    }
}

/// Blocks with an empty line between them.
pub open spec fn paragraphs(bs: Seq<Seq<char>>) -> Seq<char>
    decreases bs.len(),
{
    if bs.len() == 0 {
        Seq::<char>::empty()
    } else if bs.len() == 1 {
        bs[0]
    } else {
        paragraphs(bs.drop_last()) + "\n"@ + bs.last()
    }
}

/// A block that is there, or none.
pub open spec fn optional(there: bool, b: Seq<char>) -> Seq<Seq<char>> {
    if there {
        seq![b]
    } else {
        Seq::<Seq<char>>::empty()
    }
}

/// The blocks of a configuration, in order.
pub open spec fn config_blocks(c: Config) -> Seq<Seq<char>> {
    optional(c.folder_renames.len() > 0, renames_block(c.folder_renames)) + optional(
        c.ignore.len() > 0,
        "[ignore]\n"@ + "patterns = ["@ + quoted_list(c.ignore) + "]\n"@,
    ) + optional(
        c.writable.len() > 0,
        "[writable]\n"@ + "patterns = ["@ + quoted_list(c.writable) + "]\n"@,
    ) + c.gitignore_drop.map_values(|d: Drops| drop_block(d))
}

/// Whether no block is empty.
spec fn none_empty(bs: Seq<Seq<char>>) -> bool {
    forall|i: int| 0 <= i < bs.len() ==> (#[trigger] bs[i]).len() > 0
}

proof fn lemma_paragraphs(bs: Seq<Seq<char>>, b: Seq<char>)
    requires
        none_empty(bs),
        b.len() > 0,
    ensures
        paragraphs(bs.push(b)) == with_block(paragraphs(bs), b),
        none_empty(bs.push(b)),
        paragraphs(bs).len() == 0 <==> bs.len() == 0,
    decreases bs.len(),
{
    assert(bs.push(b).drop_last() =~= bs);
    reveal_strlit("\n");
    if bs.len() == 1 {
        assert(bs[0].len() > 0);
    }
    assert forall|i: int| 0 <= i < bs.push(b).len() implies (#[trigger] bs.push(b)[i]).len()
        > 0 by {
        if i < bs.len() {
            assert(bs.push(b)[i] == bs[i]);
        }
    }
}

proof fn lemma_optional(bs: Seq<Seq<char>>, there: bool, b: Seq<char>)
    requires
        none_empty(bs),
        there ==> b.len() > 0,
        !there ==> b.len() == 0,
    ensures
        none_empty(bs + optional(there, b)),
        paragraphs(bs + optional(there, b)) == with_block(paragraphs(bs), b),
{
    if there {
        lemma_paragraphs(bs, b);
        assert(bs + optional(there, b) =~= bs.push(b));
    } else {
        assert(bs + optional(there, b) =~= bs);
    }
}

proof fn lemma_drops(bs: Seq<Seq<char>>, ds: Seq<Drops>)
    requires
        none_empty(bs),
    ensures
        none_empty(bs + ds.map_values(|d: Drops| drop_block(d))),
        paragraphs(bs + ds.map_values(|d: Drops| drop_block(d))) == with_drops(paragraphs(bs), ds),
    decreases ds.len(),
{
    let f = |d: Drops| drop_block(d);
    if ds.len() == 0 {
        assert(bs + ds.map_values(f) =~= bs);
    } else {
        let front = ds.drop_last();
        lemma_drops(bs, front);
        let before = bs + front.map_values(f);
        reveal_strlit("[[gitignore_drop]]\n");
        lemma_paragraphs(before, drop_block(ds.last()));
        assert(bs + ds.map_values(f) =~= before.push(drop_block(ds.last())));
    }
}

/// A configuration is written in full: its renames, its two sections and each of its lists
/// of patterns to take out, in this order, with an empty line between any two, and nothing
/// where there is nothing to say.
pub proof fn law_config_text(c: Config)
    ensures
        shadowconfig_text(c) == paragraphs(config_blocks(c)),
{
    let none = Seq::<Seq<char>>::empty();
    let a = renames_block(c.folder_renames);
    let b = crate::config::section_block("[ignore]\n"@, c.ignore);
    let d = crate::config::section_block("[writable]\n"@, c.writable);
    reveal_strlit("# fuseshadow: directory renames detected during agent session.\n");
    reveal_strlit("[ignore]\n");
    reveal_strlit("[writable]\n");
    let one = none + optional(c.folder_renames.len() > 0, a);
    lemma_optional(none, c.folder_renames.len() > 0, a);
    let two = one + optional(c.ignore.len() > 0, b);
    lemma_optional(one, c.ignore.len() > 0, b);
    let three = two + optional(c.writable.len() > 0, d);
    lemma_optional(two, c.writable.len() > 0, d);
    lemma_drops(three, c.gitignore_drop);
    assert(with_block(Seq::<char>::empty(), a) =~= a);
    if c.ignore.len() > 0 {
        assert(b =~= "[ignore]\n"@ + "patterns = ["@ + quoted_list(c.ignore) + "]\n"@);
    }
    if c.writable.len() > 0 {
        assert(d =~= "[writable]\n"@ + "patterns = ["@ + quoted_list(c.writable) + "]\n"@);
    }
    assert(three + c.gitignore_drop.map_values(|x: Drops| drop_block(x)) =~= config_blocks(c));
}

/// The blocks of renames and of patterns to take out hold what they are to.
pub proof fn law_blocks(rs: Seq<Rename>, d: Drops)
    ensures
        rs.len() > 0 ==> exists|head: Seq<char>|
            renames_block(rs) == head + "folder_renames = [\n"@ + rename_lines(rs) + "]\n"@,
        drop_block(d) == (match d.gitignore {
            Some(g) => "[[gitignore_drop]]\n"@ + ("gitignore = "@ + quoted(g) + "\n"@) + (
            "patterns = ["@ + quoted_list(d.patterns) + "]\n"@),
            None => "[[gitignore_drop]]\n"@ + ("patterns = ["@ + quoted_list(d.patterns) + "]\n"@),
        }),
{
    let head = "# fuseshadow: directory renames detected during agent session.\n"@
        + "# Review and update your .gitignore files, then remove entries below.\n"@;
    if rs.len() > 0 {
        assert(renames_block(rs) == head + "folder_renames = [\n"@ + rename_lines(rs) + "]\n"@);
    }
    match d.gitignore {
        Some(g) => {
            assert(drop_block(d) =~= "[[gitignore_drop]]\n"@ + ("gitignore = "@ + quoted(g) + "\n"@)
                + ("patterns = ["@ + quoted_list(d.patterns) + "]\n"@));
        },
        None => {
            assert(drop_block(d) =~= "[[gitignore_drop]]\n"@ + ("patterns = ["@ + quoted_list(
                d.patterns,
            ) + "]\n"@));
        },
    }
}

/// Whether no key is there twice.
pub open spec fn unique_keys(es: Seq<TomlEntry>) -> bool {
    forall|i: int, j: int|
        0 <= i < j < es.len() ==> (#[trigger] es[i]).key != (#[trigger] es[j]).key
}

/// A key of a table has the value of its entry, wherever in the table that is; a key
/// without an entry has none.
pub proof fn law_lookup(es: Seq<TomlEntry>, key: Seq<char>, i: int)
    ensures
        unique_keys(es) && 0 <= i < es.len() ==> lookup(es, es[i].key) == Some(es[i].value),
        lookup(es, key) is None <==> forall|j: int| 0 <= j < es.len() ==> (#[trigger] es[j]).key
            != key,
    decreases es.len(),
{
    if es.len() > 0 {
        let front = es.drop_last();
        law_lookup(front, key, i);
        assert(es[es.len() - 1] == es.last());
        assert(forall|j: int| 0 <= j < front.len() ==> #[trigger] front[j] == es[j]);
        if unique_keys(es) {
            assert(unique_keys(front));
            if 0 <= i < front.len() {
                assert(front[i] == es[i]);
            }
        }
        if lookup(front, key) is None && es.last().key != key {
            assert forall|j: int| 0 <= j < es.len() implies (#[trigger] es[j]).key != key by {
                if j < front.len() {
                    assert(front[j].key != key);
                }
            }
        }
        if forall|j: int| 0 <= j < es.len() ==> (#[trigger] es[j]).key != key {
            assert forall|j: int| 0 <= j < front.len() implies (#[trigger] front[j]).key != key by {
                assert(es[j].key != key);
            }
        }
    }
}

/// A list of texts is read as those texts, in order; a list with anything else in it, and
/// anything but a list, is none.
pub proof fn law_text_list(t: TomlTree)
    ensures
        match text_list(t) {
            Some(ts) => t is List && ts.len() == t->List_0.len() && forall|i: int|
                0 <= i < ts.len() ==> #[trigger] t->List_0[i] == TomlTree::Text(ts[i]),
            None => !(t is List) || exists|i: int|
                0 <= i < t->List_0.len() && !(#[trigger] t->List_0[i] is Text),
        },
{
}

/// A table is read by its keys: what else is in it, and in what order, makes no difference.
pub proof fn law_config_by_keys(a: Seq<TomlEntry>, b: Seq<TomlEntry>)
    requires
        lookup(a, "ignore"@) == lookup(b, "ignore"@),
        lookup(a, "writable"@) == lookup(b, "writable"@),
        lookup(a, "folder_renames"@) == lookup(b, "folder_renames"@),
        lookup(a, "gitignore_drop"@) == lookup(b, "gitignore_drop"@),
    ensures
        config_of(TomlTree::Table(a)) == config_of(TomlTree::Table(b)),
{
}

/// What a table says of its two sections is what stands under their keys; a section that is
/// not there says nothing.
pub proof fn law_config_sections(es: Seq<TomlEntry>)
    ensures
        config_of(TomlTree::Table(es)) matches Some(c) ==> {
            &&& lookup(es, "ignore"@) is None ==> c.ignore.len() == 0
            &&& lookup(es, "writable"@) is None ==> c.writable.len() == 0
            &&& lookup(es, "ignore"@) matches Some(TomlTree::Table(s)) ==> (lookup(
                s,
                "patterns"@,
            ) matches Some(v) ==> v is List && v->List_0.len() == c.ignore.len() && forall|i: int|
                0 <= i < c.ignore.len() ==> #[trigger] v->List_0[i] == TomlTree::Text(c.ignore[i]))
            &&& lookup(es, "writable"@) matches Some(TomlTree::Table(s)) ==> (lookup(
                s,
                "patterns"@,
            ) matches Some(v) ==> v is List && v->List_0.len() == c.writable.len() && forall|i: int|
                0 <= i < c.writable.len() ==> #[trigger] v->List_0[i] == TomlTree::Text(
                    c.writable[i],
                ))
            &&& lookup(es, "ignore"@) matches Some(TomlTree::Table(s)) ==> (lookup(
                s,
                "patterns"@,
            ) is None ==> c.ignore.len() == 0)
            &&& lookup(es, "writable"@) matches Some(TomlTree::Table(s)) ==> (lookup(
                s,
                "patterns"@,
            ) is None ==> c.writable.len() == 0)
        },
{
}

/// What a table says of renames and of patterns to take out is what stands under their
/// keys, one for one and in order.
pub proof fn law_config_lists(es: Seq<TomlEntry>)
    ensures
        config_of(TomlTree::Table(es)) matches Some(c) ==> {
            &&& lookup(es, "folder_renames"@) is None ==> c.folder_renames.len() == 0
            &&& lookup(es, "gitignore_drop"@) is None ==> c.gitignore_drop.len() == 0
            &&& lookup(es, "folder_renames"@) matches Some(v) ==> v is List && v->List_0.len()
                == c.folder_renames.len() && forall|i: int|
                0 <= i < c.folder_renames.len() ==> rename_of(#[trigger] v->List_0[i]) == Some(
                    c.folder_renames[i],
                )
            &&& lookup(es, "gitignore_drop"@) matches Some(v) ==> v is List && v->List_0.len()
                == c.gitignore_drop.len() && forall|i: int|
                0 <= i < c.gitignore_drop.len() ==> drop_of(#[trigger] v->List_0[i]) == Some(
                    c.gitignore_drop[i],
                )
        },
{
    if let Some(TomlTree::List(vs)) = lookup(es, "folder_renames"@) {
        law_renames_each(vs);
    }
    if let Some(TomlTree::List(vs)) = lookup(es, "gitignore_drop"@) {
        law_drops_each(vs);
    }
}

/// A list of renames is read exactly where each of them is, one for one and in order.
pub proof fn law_renames_each(ts: Seq<TomlTree>)
    ensures
        renames_of(ts) is Some <==> forall|i: int|
            0 <= i < ts.len() ==> rename_of(#[trigger] ts[i]) is Some,
        renames_of(ts) matches Some(rs) ==> rs.len() == ts.len() && forall|i: int|
            0 <= i < ts.len() ==> rename_of(#[trigger] ts[i]) == Some(rs[i]),
    decreases ts.len(),
{
    if ts.len() > 0 {
        let front = ts.drop_last();
        law_renames_each(front);
        assert(ts[ts.len() - 1] == ts.last());
        assert(forall|i: int| 0 <= i < front.len() ==> #[trigger] front[i] == ts[i]);
        if renames_of(front) is Some {
            assert forall|i: int| 0 <= i < front.len() implies rename_of(#[trigger] ts[i]) is Some by {
                assert(rename_of(front[i]) is Some);
            }
            if renames_of(ts) is Some {
                let rs = renames_of(ts)->0;
                assert forall|i: int| 0 <= i < ts.len() implies rename_of(#[trigger] ts[i]) == Some(
                    rs[i],
                ) by {
                    if i < front.len() {
                        assert(rename_of(front[i]) == Some(renames_of(front)->0[i]));
                    }
                }
            }
        } else {
            let i = choose|i: int| 0 <= i < front.len() && rename_of(#[trigger] front[i]) is None;
            assert(rename_of(ts[i]) is None);
        }
    }
}

/// So is a list of lists of patterns to take out.
pub proof fn law_drops_each(ts: Seq<TomlTree>)
    ensures
        drops_of(ts) is Some <==> forall|i: int|
            0 <= i < ts.len() ==> drop_of(#[trigger] ts[i]) is Some,
        drops_of(ts) matches Some(ds) ==> ds.len() == ts.len() && forall|i: int|
            0 <= i < ts.len() ==> drop_of(#[trigger] ts[i]) == Some(ds[i]),
    decreases ts.len(),
{
    if ts.len() > 0 {
        let front = ts.drop_last();
        law_drops_each(front);
        assert(ts[ts.len() - 1] == ts.last());
        assert(forall|i: int| 0 <= i < front.len() ==> #[trigger] front[i] == ts[i]);
        if drops_of(front) is Some {
            assert forall|i: int| 0 <= i < front.len() implies drop_of(#[trigger] ts[i]) is Some by {
                assert(drop_of(front[i]) is Some);
            }
            if drops_of(ts) is Some {
                let ds = drops_of(ts)->0;
                assert forall|i: int| 0 <= i < ts.len() implies drop_of(#[trigger] ts[i]) == Some(
                    ds[i],
                ) by {
                    if i < front.len() {
                        assert(drop_of(front[i]) == Some(drops_of(front)->0[i]));
                    }
                }
            }
        } else {
            let i = choose|i: int| 0 <= i < front.len() && drop_of(#[trigger] front[i]) is None;
            assert(drop_of(ts[i]) is None);
        }
    }
}

/// A rename has its two names and its time under their keys, all three of them texts.
pub proof fn law_rename_fields(es: Seq<TomlEntry>)
    ensures
        rename_of(TomlTree::Table(es)) matches Some(r) ==> lookup(es, "from"@) == Some(
            TomlTree::Text(r.from),
        ) && lookup(es, "to"@) == Some(TomlTree::Text(r.to)) && lookup(es, "at"@) == Some(
            TomlTree::Text(r.at),
        ),
        (lookup(es, "from"@) matches Some(TomlTree::Text(_))) && (lookup(es, "to"@) matches Some(
            TomlTree::Text(_),
        )) && (lookup(es, "at"@) matches Some(TomlTree::Text(_))) ==> rename_of(
            TomlTree::Table(es),
        ) is Some,
{
}

/// Patterns to take out have to be there; the file need not be named.
pub proof fn law_drop_fields(es: Seq<TomlEntry>)
    ensures
        drop_of(TomlTree::Table(es)) matches Some(d) ==> {
            &&& lookup(es, "patterns"@) matches Some(v) && text_list(v) == Some(d.patterns)
            &&& d.gitignore matches Some(g) ==> lookup(es, "gitignore"@) == Some(TomlTree::Text(g))
            &&& d.gitignore is None ==> lookup(es, "gitignore"@) is None
        },
        (lookup(es, "patterns"@) matches Some(v) && text_list(v) is Some) && (lookup(
            es,
            "gitignore"@,
        ) is None || (lookup(es, "gitignore"@) matches Some(TomlTree::Text(_)))) ==> drop_of(
            TomlTree::Table(es),
        ) is Some,
{
}

/// A table whose parts can be read can be read, whatever else is in it.
pub proof fn law_config_accepted(es: Seq<TomlEntry>)
    requires
        lookup(es, "ignore"@) matches Some(v) ==> section_of(v) is Some,
        lookup(es, "writable"@) matches Some(v) ==> section_of(v) is Some,
        lookup(es, "folder_renames"@) matches Some(v) ==> v is List && forall|i: int|
            0 <= i < v->List_0.len() ==> rename_of(#[trigger] v->List_0[i]) is Some,
        lookup(es, "gitignore_drop"@) matches Some(v) ==> v is List && forall|i: int|
            0 <= i < v->List_0.len() ==> drop_of(#[trigger] v->List_0[i]) is Some,
    ensures
        config_of(TomlTree::Table(es)) is Some,
{
    if let Some(TomlTree::List(vs)) = lookup(es, "folder_renames"@) {
        law_renames_each(vs);
    }
    if let Some(TomlTree::List(vs)) = lookup(es, "gitignore_drop"@) {
        law_drops_each(vs);
    }
}

/// A text is refused for its syntax exactly where it is no TOML document, and for its shape
/// where it is one.
pub proof fn law_config_faults(text: Seq<char>)
    ensures
        toml_document(text) is None ==> shadowconfig_of(text) is None && config_fault(text)
            == ConfigError::Syntax,
        toml_document(text) is Some && shadowconfig_of(text) is None ==> config_fault(text)
            == ConfigError::Shape,
        toml_document(text) matches Some(t) ==> shadowconfig_of(text) == config_of(t),
{
}

/// A field of a record is found by its key in a table and by its place in a list; a date has
/// none, and any other value is no record.
pub proof fn law_fields(es: Seq<TomlEntry>, vs: Seq<TomlTree>, t: Seq<char>, key: Seq<char>, place: int)
    ensures
        field(TomlTree::Table(es), key, place) == Some(lookup(es, key)),
        place < vs.len() ==> field(TomlTree::List(vs), key, place) == Some(Some(vs[place])),
        place >= vs.len() ==> field(TomlTree::List(vs), key, place) == Some(None::<TomlTree>),
        field(TomlTree::Datetime, key, place) == Some(None::<TomlTree>),
        field(TomlTree::Text(t), key, place) is None,
        field(TomlTree::Scalar, key, place) is None,
{
}

} // verus!
