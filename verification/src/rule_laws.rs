//! What holds of single rules: how a path is classified, and how the rules change.

use crate::aliases::{
    before, move_of, moves_of, older_name, original, stands_for, table, undone, Move,
};
use crate::config::{shadowconfig_of, Config, Rename};
use crate::found::{text_of, Found};
use crate::lists::{lists_outside, Lists};
use crate::load::ChildConfigs;
use crate::load_laws::{
    gives, law_config_added, law_gitignore_added, law_outside_exact, law_rule_file_names,
};
use crate::matcher::{
    anchor, any_ignores, gitignore_verdict, ignores, pattern_matcher, Matcher,
};
use crate::path::{components, file_name, joined, pieces, starts_with, strip};
use crate::path_laws::{is_plain, law_joined_name, law_strip_joined, law_strip_self};
use crate::rules::{
    config_in, loaded, rename_record, unseen, PathClass, Rules, Stamp,
};
use crate::text::{
    is_ascii_path, is_space, lemma_ascii_path, lower_bytes, lower_form, text_form,
};
use vstd::prelude::*;
use vstd::utf8::{encode_utf8, valid_utf8};

verus! {

/// Whether the lines of one of the matchers ignore a path below the directory in which
/// they are anchored.
pub open spec fn caught(ms: Seq<Matcher>, path: Seq<u8>, is_dir: bool) -> bool {
    exists|i: int|
        0 <= i < ms.len() && starts_with(path, (#[trigger] ms[i]).dir) && gitignore_verdict(
            ms[i].lines,
            strip(path, ms[i].dir)->0,
            is_dir,
        )
}

/// Whether a gitignore file ignores a path under a name that it stands for.
pub open spec fn caught_by_name(r: Rules, path: Seq<u8>, was: Seq<u8>, is_dir: bool) -> bool {
    starts_with(path, r.match_root()) && stands_for(
        r.moves,
        strip(path, r.match_root())->0,
        was,
    ) && caught(r.lists.gitignore, joined(r.match_root(), was), is_dir)
}

/// Whether a gitignore file ignores a path, under its name or one that it stands for.
pub open spec fn kept_away(r: Rules, path: Seq<u8>, is_dir: bool) -> bool {
    caught(r.lists.gitignore, path, is_dir) || exists|was: Seq<u8>|
        #[trigger] caught_by_name(r, path, was, is_dir)
}

/// A list of matchers ignores a path exactly where one of them catches it.
pub proof fn law_matchers_catch(ms: Seq<Matcher>, path: Seq<u8>, is_dir: bool)
    ensures
        any_ignores(ms, path, is_dir) <==> caught(ms, path, is_dir),
{
    if any_ignores(ms, path, is_dir) {
        let i = choose|i: int| 0 <= i < ms.len() && #[trigger] ignores(ms[i], path, is_dir);
        assert(starts_with(path, ms[i].dir));
    }
    if caught(ms, path, is_dir) {
        let i = choose|i: int|
            0 <= i < ms.len() && starts_with(path, (#[trigger] ms[i]).dir) && gitignore_verdict(
                ms[i].lines,
                strip(path, ms[i].dir)->0,
                is_dir,
            );
        assert(ignores(ms[i], path, is_dir));
    }
}

/// A matcher judges what lies below its directory by what remains of the path there.
pub proof fn law_matcher_judges(m: Matcher, rest: Seq<u8>, is_dir: bool)
    requires
        is_plain(rest),
    ensures
        ignores(m, joined(m.dir, rest), is_dir) == gitignore_verdict(m.lines, rest, is_dir),
{
    law_strip_joined(m.dir, rest);
}

/// A path is gitignored exactly where a gitignore file ignores it, under its name or under
/// one that it stands for.
pub proof fn law_gitignored_exact(r: Rules, path: Seq<u8>, is_dir: bool)
    ensures
        r.gitignored(path, is_dir) <==> kept_away(r, path, is_dir),
{
    law_matchers_catch(r.lists.gitignore, path, is_dir);
    if r.ignored_by_alias(path, is_dir) {
        let rel = strip(path, r.match_root())->0;
        let was = choose|was: Seq<u8>|
            stands_for(r.moves, rel, was) && #[trigger] r.ignored_as(was, is_dir);
        law_matchers_catch(r.lists.gitignore, joined(r.match_root(), was), is_dir);
        assert(caught_by_name(r, path, was, is_dir));
    }
    if exists|was: Seq<u8>| #[trigger] caught_by_name(r, path, was, is_dir) {
        let was = choose|was: Seq<u8>| #[trigger] caught_by_name(r, path, was, is_dir);
        law_matchers_catch(r.lists.gitignore, joined(r.match_root(), was), is_dir);
        assert(r.ignored_as(was, is_dir));
    }
}

/// Each path has the class of the first rule that holds of it: a `.shadowconfig` and what
/// an `[ignore]` section matches is hidden; what is gitignored lives in the overlay where a
/// `[writable]` section matches it, and is blocked elsewhere; a `.gitignore` can be read;
/// anything else passes through.
pub proof fn law_class_table(r: Rules, rel: Seq<u8>, is_dir: bool)
    ensures
        ({
            let path = r.match_path(rel);
            let hidden = r.is_named(rel, ".shadowconfig"@) || caught(r.lists.ignore, path, is_dir);
            let away = kept_away(r, path, is_dir);
            let writable = caught(r.lists.writable, path, is_dir);
            let rule_file = r.is_named(rel, ".gitignore"@);
            let class = r.class_of(rel, is_dir);
            &&& class == PathClass::Hidden <==> hidden
            &&& class == PathClass::WritableOverlay <==> !hidden && away && writable
            &&& class == PathClass::Blocked <==> !hidden && away && !writable
            &&& class == PathClass::GitignoreFile <==> !hidden && !away && rule_file
            &&& class == PathClass::Passthrough <==> !hidden && !away && !rule_file
        }),
{
    let path = r.match_path(rel);
    law_matchers_catch(r.lists.ignore, path, is_dir);
    law_matchers_catch(r.lists.writable, path, is_dir);
    law_gitignored_exact(r, path, is_dir);
}

/// Where case counts, paths are matched as they are; elsewhere those in ASCII with their
/// letters in lower case.
pub proof fn law_match_path(r: Rules, rel: Seq<u8>)
    ensures
        r.case_sensitive ==> r.match_root() == r.source_root && r.match_path(rel) == joined(
            r.source_root,
            rel,
        ),
        !r.case_sensitive && is_ascii_path(r.source_root) ==> r.match_root() == lower_bytes(
            r.source_root,
        ),
        !r.case_sensitive && is_ascii_path(r.source_root) && is_ascii_path(rel) ==> r.match_path(
            rel,
        ) == joined(lower_bytes(r.source_root), lower_bytes(rel)),
{
    if !r.case_sensitive && is_ascii_path(r.source_root) {
        lemma_ascii_path(r.source_root);
        if is_ascii_path(rel) {
            lemma_ascii_path(rel);
        }
    }
}

/// A path is known by its last name: byte for byte where case counts, and elsewhere, in
/// ASCII, whatever the case of its letters.
pub proof fn law_named(r: Rules, dir: Seq<u8>, name: Seq<u8>, text: Seq<char>)
    requires
        is_plain(name),
        pieces(name).len() == 1,
        file_name(name) == Some(name),
    ensures
        r.case_sensitive ==> (r.is_named(joined(dir, name), text) <==> name == encode_utf8(text)),
        !r.case_sensitive && is_ascii_path(name) ==> (r.is_named(joined(dir, name), text)
            <==> lower_bytes(name) == encode_utf8(text)),
        !r.case_sensitive ==> (r.is_named(joined(dir, name), text) <==> lower_form(text_form(name))
            == text),
{
    law_joined_name(dir, name);
    if !r.case_sensitive && is_ascii_path(name) {
        lemma_ascii_path(name);
        let low = lower_form(text_form(name));
        vstd::utf8::encode_utf8_decode_utf8(low);
        vstd::utf8::encode_utf8_decode_utf8(text);
        assert(encode_utf8(low) == lower_bytes(name));
    }
}

/// The class of a path depends on where the tree is, on the mode, the matchers and the
/// renames alone.
pub proof fn law_class_by_rules(r: Rules, q: Rules, rel: Seq<u8>, is_dir: bool)
    requires
        r.source_root == q.source_root,
        r.case_sensitive == q.case_sensitive,
        r.lists == q.lists,
        r.moves == q.moves,
    ensures
        r.class_of(rel, is_dir) == q.class_of(rel, is_dir),
{
    law_class_table(r, rel, is_dir);
    law_class_table(q, rel, is_dir);
    let path = r.match_path(rel);
    assert(kept_away(r, path, is_dir) == kept_away(q, path, is_dir)) by {
        if exists|was: Seq<u8>| #[trigger] caught_by_name(r, path, was, is_dir) {
            let was = choose|was: Seq<u8>| #[trigger] caught_by_name(r, path, was, is_dir);
            assert(caught_by_name(q, path, was, is_dir));
        }
        if exists|was: Seq<u8>| #[trigger] caught_by_name(q, path, was, is_dir) {
            let was = choose|was: Seq<u8>| #[trigger] caught_by_name(q, path, was, is_dir);
            assert(caught_by_name(r, path, was, is_dir));
        }
    }
}

/// A changed configuration is taken over for its renames alone: the matchers, the tree, the
/// mode and the patterns to take out stay as they were loaded.
pub proof fn law_change_keeps_rules(r: Rules, stamp: Stamp, content: Option<Seq<u8>>)
    ensures
        ({
            let now = r.config_changed(stamp, content);
            &&& now.lists.gitignore == r.lists.gitignore
            &&& now.lists.ignore == r.lists.ignore
            &&& now.lists.writable == r.lists.writable
            &&& now.source_root == r.source_root
            &&& now.case_sensitive == r.case_sensitive
            &&& now.io_root == r.io_root
            &&& now.drops == r.drops
            &&& now.children == r.children
            &&& now.stamp == stamp
        }),
{
}

/// What an `[ignore]` section hid stays hidden when the configuration is changed, and what
/// a gitignore file ignores under its own name stays ignored.
pub proof fn law_change_keeps_hidden(
    r: Rules,
    stamp: Stamp,
    content: Option<Seq<u8>>,
    rel: Seq<u8>,
    is_dir: bool,
)
    ensures
        r.class_of(rel, is_dir) == PathClass::Hidden <==> r.config_changed(
            stamp,
            content,
        ).class_of(rel, is_dir) == PathClass::Hidden,
        caught(r.lists.gitignore, r.match_path(rel), is_dir) ==> r.config_changed(
            stamp,
            content,
        ).class_of(rel, is_dir) == r.class_of(rel, is_dir),
{
    let now = r.config_changed(stamp, content);
    law_change_keeps_rules(r, stamp, content);
    law_class_table(r, rel, is_dir);
    law_class_table(now, rel, is_dir);
}

/// The renames of a changed configuration take the place of those before. Without a
/// configuration there are none; one that cannot be parsed changes none.
pub proof fn law_change_renames(r: Rules, stamp: Stamp, content: Option<Seq<u8>>)
    ensures
        ({
            let now = r.config_changed(stamp, content);
            match text_of(content) {
                None => now.moves.len() == 0 && forall|p: (Seq<char>, Seq<char>)|
                    !(#[trigger] now.known.contains(p)),
                Some(t) => match shadowconfig_of(t) {
                    None => now.moves == r.moves && now.known == r.known,
                    Some(c) => {
                        let rs = c.folder_renames;
                        &&& now.moves.len() == rs.len()
                        &&& forall|i: int|
                            0 <= i < rs.len() ==> #[trigger] now.moves[i] == move_of(
                                rs[i],
                                r.case_sensitive,
                            )
                        &&& forall|i: int|
                            0 <= i < rs.len() ==> now.known.contains(
                                ((#[trigger] rs[i]).from, rs[i].to),
                            )
                        &&& forall|p: (Seq<char>, Seq<char>)| #[trigger]
                            now.known.contains(p) ==> exists|i: int|
                                0 <= i < rs.len() && (#[trigger] rs[i]).from == p.0 && rs[i].to
                                    == p.1
                    },
                },
            }
        }),
{
    if let Some(t) = text_of(content) {
        if let Some(c) = shadowconfig_of(t) {
            let now = r.config_changed(stamp, content);
            let rs = c.folder_renames;
            assert forall|i: int| 0 <= i < rs.len() implies now.known.contains(
                ((#[trigger] rs[i]).from, rs[i].to),
            ) by {
                assert(crate::load::names(rs[i]) == (rs[i].from, rs[i].to));
            }
            assert forall|p: (Seq<char>, Seq<char>)| #[trigger] now.known.contains(p) implies exists|
                i: int,
            |
                0 <= i < rs.len() && (#[trigger] rs[i]).from == p.0 && rs[i].to == p.1 by {
                let i = choose|i: int| 0 <= i < rs.len() && crate::load::names(rs[i]) == p;
                assert(rs[i].from == p.0);
            }
        }
    }
}

/// The news of a changed configuration are the renames in it that were not known, each
/// once; without a change, and without a configuration that can be parsed, there are none.
pub proof fn law_news(r: Rules, stamp: Stamp, content: Option<Seq<u8>>)
    ensures
        stamp == r.stamp ==> r.news(stamp, content).len() == 0,
        text_of(content) is None ==> r.news(stamp, content).len() == 0,
        text_of(content) matches Some(t) && shadowconfig_of(t) is None ==> r.news(
            stamp,
            content,
        ).len() == 0,
        r.news(stamp, content).no_duplicates(),
        stamp != r.stamp ==> (text_of(content) matches Some(t) ==> (shadowconfig_of(t) matches Some(
            c,
        ) ==> forall|from: Seq<char>, to: Seq<char>| #[trigger]
            r.news(stamp, content).contains((from, to)) <==> !r.known.contains((from, to))
                && exists|i: int|
                0 <= i < c.folder_renames.len() && (#[trigger] c.folder_renames[i]).from == from
                    && c.folder_renames[i].to == to)),
{
    if let Some(t) = text_of(content) {
        if let Some(c) = shadowconfig_of(t) {
            let rs = c.folder_renames;
            crate::laws::law_news_complete(rs, r.known);
            if stamp != r.stamp {
                assert forall|from: Seq<char>, to: Seq<char>| #[trigger]
                    r.news(stamp, content).contains((from, to)) <==> !r.known.contains((from, to))
                        && exists|i: int|
                        0 <= i < rs.len() && (#[trigger] rs[i]).from == from && rs[i].to == to by {
                    let p = (from, to);
                    if crate::load::pairs_of(rs).contains(p) {
                        let i = choose|i: int| 0 <= i < rs.len() && crate::load::names(rs[i]) == p;
                        assert(rs[i].from == from && rs[i].to == to);
                    }
                    if exists|i: int|
                        0 <= i < rs.len() && (#[trigger] rs[i]).from == from && rs[i].to == to {
                        let i = choose|i: int|
                            0 <= i < rs.len() && (#[trigger] rs[i]).from == from && rs[i].to == to;
                        assert(crate::load::names(rs[i]) == p);
                        assert(crate::load::pairs_of(rs).contains(p));
                    }
                }
            }
        }
    }
}

/// News come in the order in which they were recorded: one more record adds at most one,
/// behind the others.
pub proof fn law_news_order(rs: Seq<Rename>, r: Rename, known: Set<(Seq<char>, Seq<char>)>)
    ensures
        unseen(rs, known).is_prefix_of(unseen(rs.push(r), known)),
        unseen(rs.push(r), known).len() <= unseen(rs, known).len() + 1,
{
    assert(rs.push(r).drop_last() =~= rs);
}

/// Recorded renames are taken over in order, with their names as they are matched: as they
/// are where case counts, and elsewhere, in ASCII, in lower case.
pub proof fn law_moves(rs: Seq<Rename>, case_sensitive: bool, i: int)
    requires
        0 <= i < rs.len(),
    ensures
        moves_of(rs, case_sensitive).len() == rs.len(),
        case_sensitive ==> moves_of(rs, case_sensitive)[i].from == encode_utf8(rs[i].from)
            && moves_of(rs, case_sensitive)[i].to == encode_utf8(rs[i].to),
        !case_sensitive && is_ascii_path(encode_utf8(rs[i].from)) ==> moves_of(
            rs,
            case_sensitive,
        )[i].from == lower_bytes(encode_utf8(rs[i].from)),
        !case_sensitive && is_ascii_path(encode_utf8(rs[i].to)) ==> moves_of(
            rs,
            case_sensitive,
        )[i].to == lower_bytes(encode_utf8(rs[i].to)),
{
    if !case_sensitive && is_ascii_path(encode_utf8(rs[i].from)) {
        lemma_ascii_path(encode_utf8(rs[i].from));
    }
    if !case_sensitive && is_ascii_path(encode_utf8(rs[i].to)) {
        lemma_ascii_path(encode_utf8(rs[i].to));
    }
}

/// The table of original names: what was renamed has the original name of what it was
/// renamed from, and anything else the one that it had. Without a rename each directory has
/// its own.
pub proof fn law_table(ms: Seq<Move>, m: Move, dir: Seq<u8>)
    ensures
        original(table(ms.push(m)), m.to) == original(table(ms), m.from),
        table(ms.push(m)).contains_key(components(m.to)),
        components(dir) != components(m.to) ==> original(table(ms.push(m)), dir) == original(
            table(ms),
            dir,
        ),
        components(dir) != components(m.to) ==> (table(ms.push(m)).contains_key(components(dir))
            <==> table(ms).contains_key(components(dir))),
        original(table(Seq::<Move>::empty()), dir) == dir,
{
    assert(ms.push(m).drop_last() =~= ms);
}

proof fn lemma_table_keys(ms: Seq<Move>, k: Seq<Seq<u8>>)
    ensures
        table(ms).contains_key(k) ==> exists|i: int|
            0 <= i < ms.len() && components((#[trigger] ms[i]).to) == k,
    decreases ms.len(),
{
    if ms.len() > 0 {
        lemma_table_keys(ms.drop_last(), k);
        if table(ms).contains_key(k) {
            if k == components(ms.last().to) {
                assert(components(ms[ms.len() - 1].to) == k);
            } else {
                let i = choose|i: int|
                    0 <= i < ms.len() - 1 && components((#[trigger] ms.drop_last()[i]).to) == k;
                assert(ms[i] == ms.drop_last()[i]);
            }
        }
    }
}

/// The newest rename is undone first, and what is left with the others; without a rename a
/// path has its own name.
pub proof fn law_undone(ms: Seq<Move>, m: Move, rest: Seq<u8>, rel: Seq<u8>)
    requires
        is_plain(rest),
    ensures
        undone(ms.push(m), joined(m.to, rest)) == undone(ms, joined(m.from, rest)),
        undone(Seq::<Move>::empty(), rel) == rel,
        !starts_with(rel, m.to) ==> undone(ms.push(m), rel) == undone(ms, rel),
{
    assert(ms.push(m).drop_last() =~= ms);
    law_strip_joined(m.to, rest);
    assert(before(m, joined(m.to, rest)) == joined(m.from, rest));
    if !starts_with(rel, m.to) {
        assert(before(m, rel) == rel);
    }
}

/// What lies below a renamed directory stands for what lies below its original name, and
/// for what it was called before all renames.
pub proof fn law_stands(ms: Seq<Move>, to: Seq<u8>, rest: Seq<u8>)
    requires
        is_plain(rest),
        table(ms).contains_key(components(to)),
    ensures
        stands_for(ms, joined(to, rest), joined(original(table(ms), to), rest)),
        stands_for(ms, joined(to, rest), undone(ms, joined(to, rest))),
{
    law_strip_joined(to, rest);
    assert(older_name(table(ms), joined(to, rest), joined(original(table(ms), to), rest)));
    if ms.len() == 0 {
        assert(!table(ms).contains_key(components(to)));
    }
}

/// What lies below no renamed directory stands for nothing but itself.
pub proof fn law_stands_apart(ms: Seq<Move>, rel: Seq<u8>, was: Seq<u8>)
    requires
        forall|i: int| 0 <= i < ms.len() ==> !starts_with(rel, (#[trigger] ms[i]).to),
        stands_for(ms, rel, was),
    ensures
        was == rel,
{
    lemma_undone_apart(ms, rel);
    if older_name(table(ms), rel, was) {
        let to = choose|to: Seq<u8>|
            table(ms).contains_key(#[trigger] components(to)) && (strip(rel, to) matches Some(rest)
                && was == joined(table(ms)[components(to)], rest));
        lemma_table_keys(ms, components(to));
        let i = choose|i: int|
            0 <= i < ms.len() && components((#[trigger] ms[i]).to) == components(to);
        assert(starts_with(rel, ms[i].to));
    }
}

proof fn lemma_undone_apart(ms: Seq<Move>, rel: Seq<u8>)
    requires
        forall|i: int| 0 <= i < ms.len() ==> !starts_with(rel, (#[trigger] ms[i]).to),
    ensures
        undone(ms, rel) == rel,
    decreases ms.len(),
{
    if ms.len() > 0 {
        let front = ms.drop_last();
        assert forall|i: int| 0 <= i < front.len() implies !starts_with(
            rel,
            (#[trigger] front[i]).to,
        ) by {
            assert(front[i] == ms[i]);
        }
        assert(!starts_with(rel, ms[ms.len() - 1].to));
        lemma_undone_apart(front, rel);
    }
}

/// Renames leave what lies below no renamed directory as it was.
pub proof fn law_unrelated_unaffected(r: Rules, rel: Seq<u8>, is_dir: bool)
    requires
        is_plain(anchor(rel, r.case_sensitive)),
        forall|i: int|
            0 <= i < r.moves.len() ==> !starts_with(
                anchor(rel, r.case_sensitive),
                (#[trigger] r.moves[i]).to,
            ),
    ensures
        r.gitignored(r.match_path(rel), is_dir) <==> caught(
            r.lists.gitignore,
            r.match_path(rel),
            is_dir,
        ),
        r.class_of(rel, is_dir) == (Rules { moves: Seq::<Move>::empty(), ..r }).class_of(
            rel,
            is_dir,
        ),
{
    let own = anchor(rel, r.case_sensitive);
    let bare = Rules { moves: Seq::<Move>::empty(), ..r };
    let path = r.match_path(rel);
    law_strip_joined(r.match_root(), own);
    law_class_table(r, rel, is_dir);
    law_class_table(bare, rel, is_dir);
    law_gitignored_exact(r, path, is_dir);
    if exists|was: Seq<u8>| #[trigger] caught_by_name(r, path, was, is_dir) {
        let was = choose|was: Seq<u8>| #[trigger] caught_by_name(r, path, was, is_dir);
        law_stands_apart(r.moves, own, was);
    }
    if exists|was: Seq<u8>| #[trigger] caught_by_name(bare, path, was, is_dir) {
        let was = choose|was: Seq<u8>| #[trigger] caught_by_name(bare, path, was, is_dir);
        law_stands_apart(bare.moves, own, was);
    }
}

/// A path is read and written below the directory by which the source tree is, or below
/// the source root where there is none.
pub proof fn law_io_path(r: Rules, rel: Seq<u8>)
    ensures
        r.io_root is None && rel.len() > 0 ==> r.io_path(rel) == joined(r.source_root, rel),
        r.io_root is Some && rel.len() > 0 ==> r.io_path(rel) == joined(r.io_root->0, rel),
        rel.len() == 0 && r.io_root is None ==> r.io_path(rel) == joined(r.source_root, seq![46u8]),
        rel.len() == 0 && r.io_root is Some ==> r.io_path(rel) == joined(r.io_root->0, seq![46u8]),
{
}

/// What is found below where a directory is read counts from below the directory in the
/// source tree.
pub proof fn law_source_dir(r: Rules, new_rel: Seq<u8>, below: Seq<u8>)
    requires
        is_plain(below),
    ensures
        r.source_dir(new_rel, joined(r.io_path(new_rel), below)) == joined(
            joined(r.source_root, new_rel),
            below,
        ),
{
    law_strip_joined(r.io_path(new_rel), below);
}

/// A file that was found below a directory, as if it had been found in the source tree.
pub open spec fn in_source(r: Rules, new_rel: Seq<u8>, f: Found) -> Found {
    Found { dir: r.source_dir(new_rel, f.dir), ..f }
}

/// The configuration that counts in a file below a renamed directory.
pub open spec fn refreshed_config(r: Rules, f: Found) -> Option<Config> {
    if f.name == encode_utf8(".shadowconfig"@) && r.children == ChildConfigs::Compose {
        match text_of(f.content) {
            Some(t) => shadowconfig_of(t),
            None => None,
        }
    } else {
        None
    }
}

/// Whether a found file gives a gitignore matcher.
pub open spec fn gives_again(
    r: Rules,
    new_rel: Seq<u8>,
    fs: Seq<Found>,
    m: Matcher,
) -> bool {
    exists|j: int|
        0 <= j < fs.len() && gives(
            in_source(r, new_rel, #[trigger] fs[j]),
            r.drops,
            r.case_sensitive,
            m,
        )
}

/// Whether a found file gives an `[ignore]` matcher.
pub open spec fn hides_again(
    r: Rules,
    new_rel: Seq<u8>,
    fs: Seq<Found>,
    m: Matcher,
) -> bool {
    exists|j: int|
        0 <= j < fs.len() && (refreshed_config(r, #[trigger] fs[j]) matches Some(c)
            && pattern_matcher(r.source_dir(new_rel, fs[j].dir), c.ignore, r.case_sensitive)
            == Some(m))
}

/// Whether a found file gives a `[writable]` matcher.
pub open spec fn opens_again(
    r: Rules,
    new_rel: Seq<u8>,
    fs: Seq<Found>,
    m: Matcher,
) -> bool {
    exists|j: int|
        0 <= j < fs.len() && (refreshed_config(r, #[trigger] fs[j]) matches Some(c)
            && pattern_matcher(r.source_dir(new_rel, fs[j].dir), c.writable, r.case_sensitive)
            == Some(m))
}

proof fn lemma_again(r: Rules, new_rel: Seq<u8>, fs: Seq<Found>, m: Matcher)
    requires
        fs.len() > 0,
    ensures
        gives_again(r, new_rel, fs, m) <==> gives_again(r, new_rel, fs.drop_last(), m) || gives(
            in_source(r, new_rel, fs.last()),
            r.drops,
            r.case_sensitive,
            m,
        ),
        hides_again(r, new_rel, fs, m) <==> hides_again(r, new_rel, fs.drop_last(), m) || (
        refreshed_config(r, fs.last()) matches Some(c) && pattern_matcher(
            r.source_dir(new_rel, fs.last().dir),
            c.ignore,
            r.case_sensitive,
        ) == Some(m)),
        opens_again(r, new_rel, fs, m) <==> opens_again(r, new_rel, fs.drop_last(), m) || (
        refreshed_config(r, fs.last()) matches Some(c) && pattern_matcher(
            r.source_dir(new_rel, fs.last().dir),
            c.writable,
            r.case_sensitive,
        ) == Some(m)),
{
    let front = fs.drop_last();
    let n = fs.len() - 1;
    assert(fs[n] == fs.last());
    assert(forall|j: int| 0 <= j < n ==> #[trigger] front[j] == fs[j]);
    if gives_again(r, new_rel, front, m) {
        let j = choose|j: int|
            0 <= j < front.len() && gives(
                in_source(r, new_rel, #[trigger] front[j]),
                r.drops,
                r.case_sensitive,
                m,
            );
        assert(gives(in_source(r, new_rel, fs[j]), r.drops, r.case_sensitive, m));
    }
    if gives_again(r, new_rel, fs, m) {
        let j = choose|j: int|
            0 <= j < fs.len() && gives(
                in_source(r, new_rel, #[trigger] fs[j]),
                r.drops,
                r.case_sensitive,
                m,
            );
        if j < n {
            assert(front[j] == fs[j]);
        }
    }
    if hides_again(r, new_rel, front, m) {
        let j = choose|j: int|
            0 <= j < front.len() && (refreshed_config(r, #[trigger] front[j]) matches Some(c)
                && pattern_matcher(
                r.source_dir(new_rel, front[j].dir),
                c.ignore,
                r.case_sensitive,
            ) == Some(m));
        assert(refreshed_config(r, fs[j]) is Some);
    }
    if hides_again(r, new_rel, fs, m) {
        let j = choose|j: int|
            0 <= j < fs.len() && (refreshed_config(r, #[trigger] fs[j]) matches Some(c)
                && pattern_matcher(r.source_dir(new_rel, fs[j].dir), c.ignore, r.case_sensitive)
                == Some(m));
        if j < n {
            assert(front[j] == fs[j]);
        }
    }
    if opens_again(r, new_rel, front, m) {
        let j = choose|j: int|
            0 <= j < front.len() && (refreshed_config(r, #[trigger] front[j]) matches Some(c)
                && pattern_matcher(
                r.source_dir(new_rel, front[j].dir),
                c.writable,
                r.case_sensitive,
            ) == Some(m));
        assert(refreshed_config(r, fs[j]) is Some);
    }
    if opens_again(r, new_rel, fs, m) {
        let j = choose|j: int|
            0 <= j < fs.len() && (refreshed_config(r, #[trigger] fs[j]) matches Some(c)
                && pattern_matcher(r.source_dir(new_rel, fs[j].dir), c.writable, r.case_sensitive)
                == Some(m));
        if j < n {
            assert(front[j] == fs[j]);
        }
    }
}

/// Reading the files below a renamed directory adds the matchers of each rule file that
/// counts, and nothing else.
pub proof fn law_files_exact(r: Rules, l: Lists, new_rel: Seq<u8>, fs: Seq<Found>, m: Matcher)
    ensures
        ({
            let now = r.with_files(l, new_rel, fs);
            &&& now.gitignore.contains(m) <==> l.gitignore.contains(m) || gives_again(
                r,
                new_rel,
                fs,
                m,
            )
            &&& now.ignore.contains(m) <==> l.ignore.contains(m) || hides_again(r, new_rel, fs, m)
            &&& now.writable.contains(m) <==> l.writable.contains(m) || opens_again(
                r,
                new_rel,
                fs,
                m,
            )
        }),
    decreases fs.len(),
{
    if fs.len() > 0 {
        let front = fs.drop_last();
        let f = fs.last();
        let before = r.with_files(l, new_rel, front);
        law_files_exact(r, l, new_rel, front, m);
        lemma_again(r, new_rel, fs, m);
        law_rule_file_names(f.name);
        if f.name == encode_utf8(".gitignore"@) {
            law_gitignore_added(before, in_source(r, new_rel, f), r.drops, r.case_sensitive, m);
        }
        if refreshed_config(r, f) is Some {
            law_config_added(
                before,
                r.source_dir(new_rel, f.dir),
                refreshed_config(r, f)->0,
                r.case_sensitive,
                m,
            );
        }
    }
}

/// Following a rename takes out the matchers below the old name, and below the new one
/// where the rename was made elsewhere, adds those of the files found below the new name,
/// and leaves all others.
pub proof fn law_rename_lists(
    r: Rules,
    old_rel: Seq<u8>,
    new_rel: Seq<u8>,
    fs: Seq<Found>,
    m: Matcher,
)
    ensures
        ({
            let own = r.lists_renamed(old_rel, new_rel, fs);
            let other = r.lists_renamed_elsewhere(old_rel, new_rel, fs);
            let stays = !starts_with(m.dir, r.match_path(old_rel));
            let apart = stays && !starts_with(m.dir, r.match_path(new_rel));
            &&& own.gitignore.contains(m) <==> (r.lists.gitignore.contains(m) && stays)
                || gives_again(r, new_rel, fs, m)
            &&& own.ignore.contains(m) <==> (r.lists.ignore.contains(m) && stays) || hides_again(
                r,
                new_rel,
                fs,
                m,
            )
            &&& own.writable.contains(m) <==> (r.lists.writable.contains(m) && stays)
                || opens_again(r, new_rel, fs, m)
            &&& other.gitignore.contains(m) <==> (r.lists.gitignore.contains(m) && apart)
                || gives_again(r, new_rel, fs, m)
            &&& other.ignore.contains(m) <==> (r.lists.ignore.contains(m) && apart) || hides_again(
                r,
                new_rel,
                fs,
                m,
            )
            &&& other.writable.contains(m) <==> (r.lists.writable.contains(m) && apart)
                || opens_again(r, new_rel, fs, m)
        }),
{
    let a = r.match_path(old_rel);
    let b = r.match_path(new_rel);
    let once = lists_outside(r.lists, a);
    let twice = lists_outside(once, b);
    law_files_exact(r, once, new_rel, fs, m);
    law_files_exact(r, twice, new_rel, fs, m);
    law_outside_exact(r.lists.gitignore, a, m);
    law_outside_exact(r.lists.ignore, a, m);
    law_outside_exact(r.lists.writable, a, m);
    law_outside_exact(once.gitignore, b, m);
    law_outside_exact(once.ignore, b, m);
    law_outside_exact(once.writable, b, m);
}

/// Following a rename that this process made adds one rename, behind the others.
pub proof fn law_rename_moves(r: Rules, old_rel: Seq<u8>, new_rel: Seq<u8>)
    ensures
        r.moves_renamed(old_rel, new_rel).len() == r.moves.len() + 1,
        r.moves.is_prefix_of(r.moves_renamed(old_rel, new_rel)),
        r.case_sensitive ==> r.moves_renamed(old_rel, new_rel).last().from == old_rel
            && r.moves_renamed(old_rel, new_rel).last().to == new_rel,
        !r.case_sensitive && is_ascii_path(old_rel) ==> r.moves_renamed(
            old_rel,
            new_rel,
        ).last().from == lower_bytes(old_rel),
        !r.case_sensitive && is_ascii_path(new_rel) ==> r.moves_renamed(
            old_rel,
            new_rel,
        ).last().to == lower_bytes(new_rel),
{
    if is_ascii_path(old_rel) {
        lemma_ascii_path(old_rel);
    }
    if is_ascii_path(new_rel) {
        lemma_ascii_path(new_rel);
    }
}

/// A file with nothing but whitespace holds a configuration that says nothing; any other
/// holds what can be parsed.
pub proof fn law_config_in(text: Seq<char>)
    ensures
        (forall|i: int| 0 <= i < text.len() ==> is_space(#[trigger] text[i])) ==> (config_in(
            text,
        ) matches Some(c) && c.ignore.len() == 0 && c.writable.len() == 0
            && c.folder_renames.len() == 0 && c.gitignore_drop.len() == 0),
        (exists|i: int| 0 <= i < text.len() && !is_space(#[trigger] text[i])) ==> config_in(text)
            == shadowconfig_of(text),
{
    crate::text_laws::law_trimmed(text);
    if forall|i: int| 0 <= i < text.len() ==> is_space(#[trigger] text[i]) {
        crate::text_laws::law_blank_trimmed(text);
    }
    if exists|i: int| 0 <= i < text.len() && !is_space(#[trigger] text[i]) {
        crate::text_laws::law_blank_trimmed(text);
    }
}

/// The record of a rename holds both names, and the time, as they are. Holds of names that
/// are UTF-8.
pub proof fn law_rename_record(old_rel: Seq<u8>, new_rel: Seq<u8>, at: Seq<char>)
    requires
        valid_utf8(old_rel),
        valid_utf8(new_rel),
    ensures
        rename_record(old_rel, new_rel, at).from == text_form(old_rel),
        rename_record(old_rel, new_rel, at).to == text_form(new_rel),
        encode_utf8(rename_record(old_rel, new_rel, at).from) == old_rel,
        encode_utf8(rename_record(old_rel, new_rel, at).to) == new_rel,
        rename_record(old_rel, new_rel, at).at == at,
{
    vstd::utf8::decode_utf8_encode_utf8(old_rel);
    vstd::utf8::decode_utf8_encode_utf8(new_rel);
}

/// What is found elsewhere than below where a directory is read counts from the directory
/// itself.
pub proof fn law_source_dir_elsewhere(r: Rules, new_rel: Seq<u8>, dir: Seq<u8>)
    requires
        !starts_with(dir, r.io_path(new_rel)),
    ensures
        r.source_dir(new_rel, dir) == joined(joined(r.source_root, new_rel), Seq::<u8>::empty()),
{
}

/// A path without a last name is not known by any.
pub proof fn law_nameless(r: Rules, rel: Seq<u8>, text: Seq<char>)
    requires
        file_name(rel) is None,
    ensures
        !r.is_named(rel, text),
{
}

/// A renamed directory itself was called what it was renamed from, and goes by its original
/// name as what it holds does.
pub proof fn law_undone_directory(ms: Seq<Move>, m: Move)
    requires
        components(m.to).len() > 0,
    ensures
        undone(ms.push(m), m.to) == undone(ms, joined(m.from, Seq::<u8>::empty())),
        stands_for(ms.push(m), m.to, joined(original(table(ms), m.from), Seq::<u8>::empty())),
{
    assert(ms.push(m).drop_last() =~= ms);
    law_strip_self(m.to);
    let now = table(ms.push(m));
    assert(now.contains_key(components(m.to)));
    assert(older_name(now, m.to, joined(original(table(ms), m.from), Seq::<u8>::empty())));
}

/// What one of the gitignore files above the source root or in it ignores is never read
/// from the source tree: it is hidden, it lives in the overlay, or it is blocked.
pub proof fn law_loaded_guards(
    root: Seq<u8>,
    above: Seq<Found>,
    tree: Seq<Found>,
    stamp: Stamp,
    case_sensitive: bool,
    children: ChildConfigs,
    home: Option<Seq<u8>>,
    m: Matcher,
    rel: Seq<u8>,
    is_dir: bool,
)
    ensures
        loaded(root, above, tree, stamp, case_sensitive, children, home) matches Ok(r) ==> (
        crate::load_laws::some_gives(above, r.drops, case_sensitive, m)
            || crate::load_laws::some_gives(tree, r.drops, case_sensitive, m)) && starts_with(
            r.match_path(rel),
            m.dir,
        ) && gitignore_verdict(m.lines, strip(r.match_path(rel), m.dir)->0, is_dir) ==> r.class_of(
            rel,
            is_dir,
        ) != PathClass::Passthrough && r.class_of(rel, is_dir) != PathClass::GitignoreFile,
{
    crate::load_laws::law_loaded_exact(
        root,
        above,
        tree,
        stamp,
        case_sensitive,
        children,
        home,
        m,
    );
    if let Ok(r) = loaded(root, above, tree, stamp, case_sensitive, children, home) {
        law_class_table(r, rel, is_dir);
        if r.lists.gitignore.contains(m) {
            let i = choose|i: int| 0 <= i < r.lists.gitignore.len() && r.lists.gitignore[i] == m;
            assert(r.lists.gitignore[i].dir == m.dir);
        }
    }
}

} // verus!
