//! What holds of the rules as a whole.

use crate::aliases::{before, moves_of, original, record, undone, Aliases, Move};
use crate::config::{shadowconfig_of, Config, Rename};
use crate::decimal::{iso8601_text, UtcTime};
use crate::found::{patterns_for, rule_file_of, text_of, DropAt, Found, RuleFile};
use crate::lists::with_gitignore;
use crate::load::{
    names, pairs_of, root_drops, scan_ancestors, scan_step, scan_tree, ChildConfigs, Failure,
    Reading, Scan,
};
use crate::matcher::{anchor, any_ignores, folded, ignores, is_dropped, surviving, Matcher};
use crate::path::{components, same_place, starts_with};
use crate::rules::{loaded, rename_record, unseen, with_rename, PathClass, Rules, Stamp};
use vstd::prelude::*;
use vstd::utf8::valid_utf8;

verus! {

/// A `.shadowconfig` is hidden, whatever else the rules say of it.
pub proof fn law_shadowconfig_hidden(r: Rules, rel: Seq<u8>, is_dir: bool)
    requires
        r.is_named(rel, ".shadowconfig"@),
    ensures
        r.class_of(rel, is_dir) == PathClass::Hidden,
{
}

/// What an `[ignore]` section matches is hidden, whatever else the rules say of it.
pub proof fn law_ignore_first(r: Rules, rel: Seq<u8>, is_dir: bool)
    requires
        any_ignores(r.lists.ignore, r.match_path(rel), is_dir),
    ensures
        r.class_of(rel, is_dir) == PathClass::Hidden,
{
}

/// What is gitignored is never read from the source tree: it is hidden, blocked, or
/// lives in the overlay.
pub proof fn law_gitignored_guarded(r: Rules, rel: Seq<u8>, is_dir: bool)
    requires
        r.gitignored(r.match_path(rel), is_dir),
    ensures
        r.class_of(rel, is_dir) != PathClass::Passthrough,
        r.class_of(rel, is_dir) != PathClass::GitignoreFile,
{
}

/// Only what is gitignored is blocked or lives in the overlay.
pub proof fn law_blocked_gitignored(r: Rules, rel: Seq<u8>, is_dir: bool)
    requires
        r.class_of(rel, is_dir) == PathClass::Blocked || r.class_of(rel, is_dir)
            == PathClass::WritableOverlay,
    ensures
        r.gitignored(r.match_path(rel), is_dir),
{
}

/// A directory that is renamed twice is judged under its first name.
pub proof fn law_rename_chain(m: Aliases, a: Seq<u8>, b: Seq<u8>, c: Seq<u8>)
    ensures
        original(record(record(m, a, b), b, c), c) == original(m, a),
{
}

/// A rename leaves the original names of other directories as they were.
pub proof fn law_rename_others(m: Aliases, a: Seq<u8>, b: Seq<u8>, other: Seq<u8>)
    requires
        components(other) != components(b),
    ensures
        original(record(m, a, b), other) == original(m, other),
{
}

/// Reading back the record of a rename gives the renames that the rename itself gave.
/// Holds of names that are UTF-8.
pub proof fn law_restart(
    rs: Seq<Rename>,
    old_rel: Seq<u8>,
    new_rel: Seq<u8>,
    at: Seq<char>,
    case_sensitive: bool,
)
    requires
        valid_utf8(old_rel),
        valid_utf8(new_rel),
    ensures
        moves_of(rs.push(rename_record(old_rel, new_rel, at)), case_sensitive) == moves_of(
            rs,
            case_sensitive,
        ).push(
            (Move {
                from: anchor(old_rel, case_sensitive),
                to: anchor(new_rel, case_sensitive),
            }),
        ),
{
    vstd::utf8::decode_utf8_encode_utf8(old_rel);
    vstd::utf8::decode_utf8_encode_utf8(new_rel);
    assert(moves_of(rs.push(rename_record(old_rel, new_rel, at)), case_sensitive) =~= moves_of(
        rs,
        case_sensitive,
    ).push(
        Move { from: anchor(old_rel, case_sensitive), to: anchor(new_rel, case_sensitive) },
    ));
}

/// A rename to another name leaves the first name of a path as it is.
pub proof fn law_undone_untouched(ms: Seq<Move>, m: Move, rel: Seq<u8>)
    requires
        !starts_with(rel, m.to),
    ensures
        undone(ms.push(m), rel) == undone(ms, rel),
{
    assert(ms.push(m).drop_last() =~= ms);
    assert(before(m, rel) == rel);
}

/// A later rename never applies to a name that an earlier one gave away: where a path lies
/// below what the earlier one renamed to, and not below what the later one did, it is
/// judged by what it was before the earlier one.
pub proof fn law_undone_in_order(ms: Seq<Move>, earlier: Move, later: Move, rel: Seq<u8>)
    requires
        !starts_with(rel, later.to),
    ensures
        undone(ms.push(earlier).push(later), rel) == undone(ms, before(earlier, rel)),
{
    law_undone_untouched(ms.push(earlier), later, rel);
    assert(ms.push(earlier).drop_last() =~= ms);
}

/// Recording a rename adds it behind the others, and leaves the sections of the
/// configuration as they were.
pub proof fn law_rename_record_keeps(
    c: Config,
    old_rel: Seq<u8>,
    new_rel: Seq<u8>,
    at: UtcTime,
)
    ensures
        ({
            let r = rename_record(old_rel, new_rel, iso8601_text(at));
            let now = with_rename(c, r);
            &&& now.ignore == c.ignore
            &&& now.writable == c.writable
            &&& now.gitignore_drop == c.gitignore_drop
            &&& now.folder_renames.drop_last() == c.folder_renames
            &&& now.folder_renames.last() == r
        }),
{
    let r = rename_record(old_rel, new_rel, iso8601_text(at));
    assert(with_rename(c, r).folder_renames.drop_last() =~= c.folder_renames);
}

/// Renames that are all known are no news.
pub proof fn law_known_no_news(rs: Seq<Rename>, known: Set<(Seq<char>, Seq<char>)>)
    requires
        pairs_of(rs).subset_of(known),
    ensures
        unseen(rs, known) == Seq::<(Seq<char>, Seq<char>)>::empty(),
    decreases rs.len(),
{
    if rs.len() > 0 {
        let f = rs.drop_last();
        assert forall|p: (Seq<char>, Seq<char>)| pairs_of(f).contains(p) implies known.contains(
            p,
        ) by {
            let i = choose|i: int| 0 <= i < f.len() && names(f[i]) == p;
            assert(names(rs[i]) == p);
            assert(pairs_of(rs).contains(p));
        }
        law_known_no_news(f, known);
        let n = rs.len() - 1;
        assert(names(rs[n]) == names(rs.last()));
        assert(pairs_of(rs).contains(names(rs.last())));
    }
}

/// A recorded rename is news exactly where it is not known.
pub proof fn law_news_complete(rs: Seq<Rename>, known: Set<(Seq<char>, Seq<char>)>)
    ensures
        forall|p: (Seq<char>, Seq<char>)| #[trigger]
            unseen(rs, known).contains(p) <==> pairs_of(rs).contains(p) && !known.contains(p),
        unseen(rs, known).no_duplicates(),
    decreases rs.len(),
{
    if rs.len() > 0 {
        let f = rs.drop_last();
        law_news_complete(f, known);
        let before = unseen(f, known);
        let now = unseen(rs, known);
        let last = names(rs.last());
        let n = rs.len() - 1;
        assert(names(rs[n]) == last);
        assert forall|p: (Seq<char>, Seq<char>)| pairs_of(rs).contains(p) <==> pairs_of(f).contains(
            p,
        ) || p == last by {
            if pairs_of(rs).contains(p) {
                let i = choose|i: int| 0 <= i < rs.len() && names(rs[i]) == p;
                if i < n {
                    assert(names(f[i]) == p);
                }
            }
            if pairs_of(f).contains(p) {
                let i = choose|i: int| 0 <= i < f.len() && names(f[i]) == p;
                assert(names(rs[i]) == p);
            }
        }
        assert forall|p: (Seq<char>, Seq<char>)| #[trigger] now.contains(p) <==> before.contains(p)
            || (p == last && !known.contains(last)) by {
            if now.contains(p) && now != before {
                let i = choose|i: int| 0 <= i < now.len() && now[i] == p;
                if i < before.len() {
                    assert(before[i] == p);
                }
            }
            if before.contains(p) {
                let i = choose|i: int| 0 <= i < before.len() && before[i] == p;
                assert(now[i] == p);
            }
            if now == before.push(last) {
                assert(now[before.len() as int] == last);
            }
        }
    } else {
        assert forall|p: (Seq<char>, Seq<char>)| !pairs_of(rs).contains(p) by {}
    }
}

/// A dropped line is gone as if it had never been in the file.
pub proof fn law_dropped_line_absent(
    a: Seq<Seq<char>>,
    line: Seq<char>,
    b: Seq<Seq<char>>,
    drops: Seq<Seq<char>>,
    case_sensitive: bool,
)
    requires
        is_dropped(line, drops, case_sensitive),
    ensures
        surviving(a.push(line) + b, drops, case_sensitive) == surviving(
            a + b,
            drops,
            case_sensitive,
        ),
    decreases b.len(),
{
    if b.len() == 0 {
        assert(a.push(line) + b =~= a.push(line));
        assert(a.push(line).drop_last() =~= a);
        assert(a + b =~= a);
    } else {
        law_dropped_line_absent(a, line, b.drop_last(), drops, case_sensitive);
        assert((a.push(line) + b).drop_last() =~= a.push(line) + b.drop_last());
        assert((a + b).drop_last() =~= a + b.drop_last());
    }
}

/// Without a pattern to drop, every line reaches the matcher.
pub proof fn law_nothing_dropped(ls: Seq<Seq<char>>, drops: Seq<Seq<char>>, case_sensitive: bool)
    requires
        forall|i: int| 0 <= i < ls.len() ==> !is_dropped(#[trigger] ls[i], drops, case_sensitive),
    ensures
        surviving(ls, drops, case_sensitive) == ls.map_values(
            |l: Seq<char>| folded(l, case_sensitive),
        ),
    decreases ls.len(),
{
    let f = |l: Seq<char>| folded(l, case_sensitive);
    if ls.len() > 0 {
        let front = ls.drop_last();
        assert forall|i: int| 0 <= i < front.len() implies !is_dropped(
            #[trigger] front[i],
            drops,
            case_sensitive,
        ) by {
            assert(front[i] == ls[i]);
        }
        law_nothing_dropped(front, drops, case_sensitive);
        assert(ls[ls.len() - 1] == ls.last());
        assert(ls.map_values(f) =~= front.map_values(f).push(f(ls.last())));
    } else {
        assert(ls.map_values(f) =~= Seq::<Seq<char>>::empty());
    }
}

/// Patterns to drop reach the file they are meant for.
pub proof fn law_drop_reaches(ds: Seq<DropAt>, file: Seq<u8>, i: int, p: Seq<char>)
    requires
        0 <= i < ds.len(),
        same_place(ds[i].file, file),
        ds[i].patterns.contains(p),
    ensures
        patterns_for(ds, file).contains(p),
    decreases ds.len(),
{
    let before = patterns_for(ds.drop_last(), file);
    let all = patterns_for(ds, file);
    if i < ds.len() - 1 {
        law_drop_reaches(ds.drop_last(), file, i, p);
        let k = choose|k: int| 0 <= k < before.len() && before[k] == p;
        assert(all[k] == p);
    } else {
        let k = choose|k: int| 0 <= k < ds[i].patterns.len() && ds[i].patterns[k] == p;
        assert(all[before.len() + k] == p);
    }
}

/// Patterns to drop reach only the file they are meant for.
pub proof fn law_drop_targets(ds: Seq<DropAt>, file: Seq<u8>)
    requires
        forall|i: int|
            0 <= i < ds.len() ==> !same_place((#[trigger] ds[i]).file, file),
    ensures
        patterns_for(ds, file) == Seq::<Seq<char>>::empty(),
    decreases ds.len(),
{
    if ds.len() > 0 {
        let front = ds.drop_last();
        assert forall|i: int| 0 <= i < front.len() implies !same_place(
            (#[trigger] front[i]).file,
            file,
        ) by {
            assert(front[i] == ds[i]);
        }
        law_drop_targets(front, file);
        assert(ds[ds.len() - 1] == ds.last());
    }
}

/// A matcher says nothing of paths outside its directory.
pub proof fn law_matcher_local(m: Matcher, path: Seq<u8>, is_dir: bool)
    requires
        !starts_with(path, m.dir),
    ensures
        !ignores(m, path, is_dir),
{
}

/// One more gitignore file takes nothing out of what is gitignored.
pub proof fn law_gitignore_adds(
    r: Rules,
    dir: Seq<u8>,
    content: Option<Seq<u8>>,
    path: Seq<u8>,
    is_dir: bool,
)
    requires
        any_ignores(r.lists.gitignore, path, is_dir),
    ensures
        any_ignores(
            with_gitignore(r.lists, dir, content, r.drops, r.case_sensitive).gitignore,
            path,
            is_dir,
        ),
{
    let before = r.lists.gitignore;
    let now = with_gitignore(r.lists, dir, content, r.drops, r.case_sensitive).gitignore;
    let i = choose|i: int| 0 <= i < before.len() && #[trigger] ignores(before[i], path, is_dir);
    assert(now[i] == before[i]);
    assert(ignores(now[i], path, is_dir));
}

/// Whether a file is a gitignore file.
pub open spec fn is_gitignore(f: Found) -> bool {
    rule_file_of(f.name) == RuleFile::Gitignore
}

proof fn lemma_ancestors_gitignore(fs: Seq<Found>, how: Reading)
    ensures
        scan_ancestors(fs, how) == scan_ancestors(fs.filter(|f: Found| is_gitignore(f)), how),
    decreases fs.len(),
{
    let p = |f: Found| is_gitignore(f);
    reveal(Seq::filter);
    if fs.len() > 0 {
        lemma_ancestors_gitignore(fs.drop_last(), how);
        if is_gitignore(fs.last()) {
            assert(fs.filter(p).drop_last() =~= fs.drop_last().filter(p));
        }
    }
}

/// Above the source root only gitignore files count: a configuration there, or any other
/// file, makes no difference to what is loaded.
pub proof fn law_only_gitignore_above(
    root: Seq<u8>,
    above: Seq<Found>,
    other: Seq<Found>,
    tree: Seq<Found>,
    stamp: Stamp,
    case_sensitive: bool,
    children: ChildConfigs,
    home: Option<Seq<u8>>,
)
    requires
        above.filter(|f: Found| is_gitignore(f)) == other.filter(|f: Found| is_gitignore(f)),
    ensures
        loaded(root, above, tree, stamp, case_sensitive, children, home) == loaded(
            root,
            other,
            tree,
            stamp,
            case_sensitive,
            children,
            home,
        ),
{
    let drops = root_drops(tree, root, home);
    let how = Reading { root, case_sensitive, children, drops };
    lemma_ancestors_gitignore(above, how);
    lemma_ancestors_gitignore(other, how);
}

/// A configuration that is not at the source root is passed over where it is to be.
pub proof fn law_child_config_skipped(s: Scan, f: Found, how: Reading)
    requires
        rule_file_of(f.name) == RuleFile::Shadowconfig,
        components(f.dir) != components(how.root),
        how.children == ChildConfigs::Skip,
    ensures
        scan_step(s, f, how) == Ok::<Scan, Failure>(s),
{
}

/// A configuration that is not at the source root fails the load where it is to.
pub proof fn law_child_config_rejected(start: Scan, fs: Seq<Found>, how: Reading, i: int)
    requires
        0 <= i < fs.len(),
        rule_file_of(fs[i].name) == RuleFile::Shadowconfig,
        components(fs[i].dir) != components(how.root),
        how.children == ChildConfigs::Reject,
    ensures
        scan_tree(start, fs, how) is Err,
    decreases fs.len(),
{
    if i < fs.len() - 1 {
        law_child_config_rejected(start, fs.drop_last(), how, i);
    }
}

/// Without a configuration every source tree can be loaded.
pub proof fn law_load_without_config(start: Scan, fs: Seq<Found>, how: Reading)
    requires
        forall|i: int|
            0 <= i < fs.len() ==> rule_file_of((#[trigger] fs[i]).name) != RuleFile::Shadowconfig,
    ensures
        scan_tree(start, fs, how) matches Ok(s) && s.renames == start.renames,
    decreases fs.len(),
{
    if fs.len() > 0 {
        let front = fs.drop_last();
        assert forall|i: int| 0 <= i < front.len() implies rule_file_of((#[trigger] front[i]).name)
            != RuleFile::Shadowconfig by {
            assert(front[i] == fs[i]);
        }
        law_load_without_config(start, front, how);
        assert(fs[fs.len() - 1] == fs.last());
    }
}

/// The renames that a load takes over are those of the configuration at the source root.
pub proof fn law_load_renames(start: Scan, fs: Seq<Found>, how: Reading, i: int)
    requires
        0 <= i < fs.len(),
        rule_file_of(fs[i].name) == RuleFile::Shadowconfig,
        components(fs[i].dir) == components(how.root),
        forall|j: int|
            0 <= j < fs.len() && j != i && rule_file_of((#[trigger] fs[j]).name)
                == RuleFile::Shadowconfig ==> components(fs[j].dir) != components(how.root),
    ensures
        scan_tree(start, fs, how) matches Ok(s) ==> text_of(fs[i].content) matches Some(text)
            && shadowconfig_of(text) matches Some(c) && s.renames == c.folder_renames,
    decreases fs.len(),
{
    if i < fs.len() - 1 {
        let front = fs.drop_last();
        assert forall|j: int|
            0 <= j < front.len() && j != i && rule_file_of((#[trigger] front[j]).name)
                == RuleFile::Shadowconfig implies components(front[j].dir) != components(
            how.root,
        ) by {
            assert(front[j] == fs[j]);
        }
        law_load_renames(start, front, how, i);
        assert(fs[fs.len() - 1] == fs.last());
    }
}

/// A change of the configuration is seen once.
pub proof fn law_change_seen_once(r: Rules, now: Stamp, content: Option<Seq<u8>>)
    ensures
        r.config_changed(now, content).stamp == now,
{
}

} // verus!
