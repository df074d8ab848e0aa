//! What holds of the rules when a directory is renamed.

use crate::aliases::{older_name, original, stands_for, table, undone, Move};
use crate::case_laws::{folds, law_folds_joined, law_folds_plain};
use crate::found::{gitignore_name, patterns_for, rule_file_of, Found, RuleFile};
use crate::lists::{lists_outside, no_lists, outside, Lists};
use crate::load::ChildConfigs;
use crate::matcher::{anchor, any_ignores, gitignore_matcher, ignores, Matcher};
use crate::path::{components, joined, pieces, starts_with, strip};
use crate::path_laws::{
    is_plain, law_components_joined, law_joined_name, law_joined_stripped, law_joined_thrice,
    law_plain_joined, law_strip_between, law_strip_joined, law_strip_self, lemma_empty_path,
    lemma_plain_relative,
};
use crate::rules::{lemma_with_files_same, PathClass, Rules};
use crate::text::{lemma_ascii_path, lower_bytes};
use vstd::prelude::*;

verus! {

proof fn lemma_files_extend(r: Rules, l: Lists, new: Seq<u8>, fs: Seq<Found>)
    ensures
        l.gitignore.is_prefix_of(r.with_files(l, new, fs).gitignore),
    decreases fs.len(),
{
    if fs.len() > 0 {
        lemma_files_extend(r, l, new, fs.drop_last());
        let before = r.with_files(l, new, fs.drop_last());
        let now = r.with_file(before, new, fs.last());
        assert(before.gitignore.is_prefix_of(now.gitignore));
    }
}

proof fn lemma_outside_keeps(ms: Seq<Matcher>, dir: Seq<u8>, i: int)
    requires
        0 <= i < ms.len(),
        !starts_with(ms[i].dir, dir),
    ensures
        outside(ms, dir).contains(ms[i]),
{
    let f = |m: Matcher| !starts_with(m.dir, dir);
    broadcast use vstd::seq_lib::group_filter_ensures;

    assert(f(ms[i]));
}

/// The gitignore matchers that are not anchored below the old name of a renamed
/// directory are still there after the rename.
pub proof fn law_rename_keeps_matchers(
    r: Rules,
    old_rel: Seq<u8>,
    new_rel: Seq<u8>,
    fs: Seq<Found>,
    i: int,
)
    requires
        0 <= i < r.lists.gitignore.len(),
        !starts_with(r.lists.gitignore[i].dir, r.match_path(old_rel)),
    ensures
        r.lists_renamed(old_rel, new_rel, fs).gitignore.contains(r.lists.gitignore[i]),
{
    let path = r.match_path(old_rel);
    lemma_outside_keeps(r.lists.gitignore, path, i);
    let base = lists_outside(r.lists, path);
    lemma_files_extend(r, base, new_rel, fs);
    let all = r.with_files(base, new_rel, fs).gitignore;
    let j = choose|j: int|
        0 <= j < base.gitignore.len() && base.gitignore[j] == r.lists.gitignore[i];
    assert(all[j] == r.lists.gitignore[i]);
}

/// The rules after a directory was renamed.
pub open spec fn renamed(r: Rules, old_rel: Seq<u8>, new_rel: Seq<u8>, fs: Seq<Found>) -> Rules {
    Rules {
        lists: r.lists_renamed(old_rel, new_rel, fs),
        moves: r.moves_renamed(old_rel, new_rel),
        ..r
    }
}

/// Whether `was` is what lies at `rest` below a directory by the original name of the
/// directory, or by the name that it had before all renames.
pub open spec fn stood_for(r: Rules, old_rel: Seq<u8>, rest: Seq<u8>, was: Seq<u8>) -> bool {
    let from = anchor(old_rel, r.case_sensitive);
    was == joined(original(r.aliases(), from), rest) || was == undone(r.moves, joined(from, rest))
}

/// Below its new name a directory has the original name that it had below the old one, and
/// what it holds has the first name that it had.
pub proof fn law_rename_stands(
    r: Rules,
    old_rel: Seq<u8>,
    new_rel: Seq<u8>,
    rest: Seq<u8>,
    rel: Seq<u8>,
    was: Seq<u8>,
)
    requires
        strip(rel, anchor(new_rel, r.case_sensitive)) == Some(rest),
        stood_for(r, old_rel, rest, was),
    ensures
        stands_for(r.moves_renamed(old_rel, new_rel), rel, was),
        undone(r.moves_renamed(old_rel, new_rel), rel) == undone(
            r.moves,
            joined(anchor(old_rel, r.case_sensitive), rest),
        ),
{
    let from = anchor(old_rel, r.case_sensitive);
    let to = anchor(new_rel, r.case_sensitive);
    let now = r.moves_renamed(old_rel, new_rel);
    assert(now.drop_last() =~= r.moves);
    assert(table(now).contains_key(components(to)));
    assert(older_name(table(now), rel, joined(original(r.aliases(), from), rest)));
}

/// What a directory held stays protected when the directory is renamed: whatever a
/// gitignore file outside it ignored by the original name of the directory, or by the name
/// from before all renames, is gitignored below the new name.
pub proof fn law_rename_protects(
    r: Rules,
    old_rel: Seq<u8>,
    new_rel: Seq<u8>,
    fs: Seq<Found>,
    rest: Seq<u8>,
    was: Seq<u8>,
    i: int,
    is_dir: bool,
)
    requires
        is_plain(anchor(new_rel, r.case_sensitive)),
        is_plain(rest),
        0 <= i < r.lists.gitignore.len(),
        !starts_with(r.lists.gitignore[i].dir, r.match_path(old_rel)),
        stood_for(r, old_rel, rest, was),
        ignores(r.lists.gitignore[i], joined(r.match_root(), was), is_dir),
    ensures
        renamed(r, old_rel, new_rel, fs).gitignored(
            joined(r.match_root(), joined(anchor(new_rel, r.case_sensitive), rest)),
            is_dir,
        ),
{
    let to = anchor(new_rel, r.case_sensitive);
    let rel = joined(to, rest);
    let now = renamed(r, old_rel, new_rel, fs);
    law_plain_joined(to, rest);
    law_strip_joined(r.match_root(), rel);
    law_strip_joined(to, rest);
    law_rename_keeps_matchers(r, old_rel, new_rel, fs, i);
    let all = now.lists.gitignore;
    let j = choose|j: int| 0 <= j < all.len() && all[j] == r.lists.gitignore[i];
    assert(ignores(all[j], joined(r.match_root(), was), is_dir));
    assert(now.ignored_as(was, is_dir));
    law_rename_stands(r, old_rel, new_rel, rest, rel, was);
    assert(now.ignored_by_alias(joined(r.match_root(), rel), is_dir));
}

/// The same of a path below the renamed directory: it neither passes through nor can it
/// be read as a `.gitignore`. Where case does not count, folding the path has to be
/// folding its two parts, as it is for paths in ASCII.
pub proof fn law_rename_protects_path(
    r: Rules,
    old_rel: Seq<u8>,
    new_rel: Seq<u8>,
    fs: Seq<Found>,
    rest: Seq<u8>,
    was: Seq<u8>,
    i: int,
    is_dir: bool,
)
    requires
        anchor(joined(new_rel, rest), r.case_sensitive) == joined(
            anchor(new_rel, r.case_sensitive),
            anchor(rest, r.case_sensitive),
        ),
        is_plain(anchor(new_rel, r.case_sensitive)),
        is_plain(anchor(rest, r.case_sensitive)),
        0 <= i < r.lists.gitignore.len(),
        !starts_with(r.lists.gitignore[i].dir, r.match_path(old_rel)),
        stood_for(r, old_rel, anchor(rest, r.case_sensitive), was),
        ignores(r.lists.gitignore[i], joined(r.match_root(), was), is_dir),
    ensures
        renamed(r, old_rel, new_rel, fs).class_of(joined(new_rel, rest), is_dir)
            != PathClass::Passthrough,
        renamed(r, old_rel, new_rel, fs).class_of(joined(new_rel, rest), is_dir)
            != PathClass::GitignoreFile,
{
    law_rename_protects(
        r,
        old_rel,
        new_rel,
        fs,
        anchor(rest, r.case_sensitive),
        was,
        i,
        is_dir,
    );
}

/// When a directory is renamed for the first time, whatever a gitignore file outside it
/// ignored below it stays gitignored.
pub proof fn law_first_rename_protects(
    r: Rules,
    old_rel: Seq<u8>,
    new_rel: Seq<u8>,
    fs: Seq<Found>,
    rest: Seq<u8>,
    i: int,
    is_dir: bool,
)
    requires
        !r.aliases().contains_key(components(anchor(old_rel, r.case_sensitive))),
        is_plain(anchor(new_rel, r.case_sensitive)),
        is_plain(rest),
        0 <= i < r.lists.gitignore.len(),
        !starts_with(r.lists.gitignore[i].dir, r.match_path(old_rel)),
        ignores(
            r.lists.gitignore[i],
            joined(r.match_root(), joined(anchor(old_rel, r.case_sensitive), rest)),
            is_dir,
        ),
    ensures
        renamed(r, old_rel, new_rel, fs).gitignored(
            joined(r.match_root(), joined(anchor(new_rel, r.case_sensitive), rest)),
            is_dir,
        ),
{
    let was = joined(anchor(old_rel, r.case_sensitive), rest);
    law_rename_protects(r, old_rel, new_rel, fs, rest, was, i, is_dir);
}

/// A renamed directory itself stays protected as what it holds does.
pub proof fn law_rename_protects_directory(
    r: Rules,
    old_rel: Seq<u8>,
    new_rel: Seq<u8>,
    fs: Seq<Found>,
    was: Seq<u8>,
    i: int,
    is_dir: bool,
)
    requires
        is_plain(anchor(new_rel, r.case_sensitive)),
        0 <= i < r.lists.gitignore.len(),
        !starts_with(r.lists.gitignore[i].dir, r.match_path(old_rel)),
        stood_for(r, old_rel, Seq::<u8>::empty(), was),
        ignores(r.lists.gitignore[i], joined(r.match_root(), was), is_dir),
    ensures
        renamed(r, old_rel, new_rel, fs).gitignored(r.match_path(new_rel), is_dir),
{
    let to = anchor(new_rel, r.case_sensitive);
    let now = renamed(r, old_rel, new_rel, fs);
    law_strip_joined(r.match_root(), to);
    law_components_joined(Seq::<u8>::empty(), to);
    crate::path::lemma_pieces_len(to);
    law_strip_self(to);
    law_rename_keeps_matchers(r, old_rel, new_rel, fs, i);
    let all = now.lists.gitignore;
    let j = choose|j: int| 0 <= j < all.len() && all[j] == r.lists.gitignore[i];
    assert(ignores(all[j], joined(r.match_root(), was), is_dir));
    assert(now.ignored_as(was, is_dir));
    law_rename_stands(r, old_rel, new_rel, Seq::<u8>::empty(), to, was);
    assert(now.ignored_by_alias(r.match_path(new_rel), is_dir));
}

proof fn lemma_files_include(r: Rules, l: Lists, new: Seq<u8>, fs: Seq<Found>, j: int, m: Matcher)
    requires
        0 <= j < fs.len(),
        rule_file_of(fs[j].name) == RuleFile::Gitignore,
        gitignore_matcher(
            r.source_dir(new, fs[j].dir),
            fs[j].content,
            patterns_for(r.drops, joined(r.source_dir(new, fs[j].dir), gitignore_name())),
            r.case_sensitive,
        ) == Some(m),
    ensures
        r.with_files(l, new, fs).gitignore.contains(m),
    decreases fs.len(),
{
    let before = r.with_files(l, new, fs.drop_last());
    let now = r.with_file(before, new, fs.last());
    if j == fs.len() - 1 {
        assert(now.gitignore.last() == m);
    } else {
        lemma_files_include(r, l, new, fs.drop_last(), j, m);
        let k = choose|k: int| 0 <= k < before.gitignore.len() && before.gitignore[k] == m;
        assert(now.gitignore[k] == m);
    }
}

/// The gitignore files inside a renamed directory count from its new name.
pub proof fn law_rename_rereads(
    r: Rules,
    old_rel: Seq<u8>,
    new_rel: Seq<u8>,
    fs: Seq<Found>,
    j: int,
    m: Matcher,
)
    requires
        0 <= j < fs.len(),
        rule_file_of(fs[j].name) == RuleFile::Gitignore,
        gitignore_matcher(
            r.source_dir(new_rel, fs[j].dir),
            fs[j].content,
            patterns_for(r.drops, joined(r.source_dir(new_rel, fs[j].dir), gitignore_name())),
            r.case_sensitive,
        ) == Some(m),
    ensures
        r.lists_renamed(old_rel, new_rel, fs).gitignore.contains(m),
        r.lists_renamed_elsewhere(old_rel, new_rel, fs).gitignore.contains(m),
{
    let once = lists_outside(r.lists, r.match_path(old_rel));
    lemma_files_include(r, once, new_rel, fs, j, m);
    lemma_files_include(r, lists_outside(once, r.match_path(new_rel)), new_rel, fs, j, m);
}

/// Whether a matcher of a gitignore file below the old name of a directory has its like
/// among the files that were found below the new name: the same lines, as far below the
/// new name as the matcher is below the old one.
pub open spec fn found_again(
    r: Rules,
    old_rel: Seq<u8>,
    new_rel: Seq<u8>,
    fs: Seq<Found>,
    m: Matcher,
) -> bool {
    exists|j: int, like: Matcher|
        #![trigger fs[j], components(like.dir)]
        {
            &&& 0 <= j < fs.len()
            &&& rule_file_of(fs[j].name) == RuleFile::Gitignore
            &&& gitignore_matcher(
                r.source_dir(new_rel, fs[j].dir),
                fs[j].content,
                patterns_for(r.drops, joined(r.source_dir(new_rel, fs[j].dir), gitignore_name())),
                r.case_sensitive,
            ) == Some(like)
            &&& like.lines == m.lines
            &&& components(like.dir) == components(r.match_path(new_rel)) + components(m.dir).skip(
                components(r.match_path(old_rel)).len() as int,
            )
        }
}

/// A gitignore file that moved along with its directory is found again.
pub proof fn law_found_again(
    r: Rules,
    old_rel: Seq<u8>,
    new_rel: Seq<u8>,
    fs: Seq<Found>,
    below: Seq<u8>,
    j: int,
    m: Matcher,
)
    requires
        folds(r.source_root, r.case_sensitive),
        folds(old_rel, r.case_sensitive),
        folds(new_rel, r.case_sensitive),
        folds(below, r.case_sensitive),
        is_plain(below),
        0 <= j < fs.len(),
        rule_file_of(fs[j].name) == RuleFile::Gitignore,
        fs[j].dir == joined(r.io_path(new_rel), below),
        ({
            let from = joined(joined(r.source_root, old_rel), below);
            let to = joined(joined(r.source_root, new_rel), below);
            let drops = patterns_for(r.drops, joined(from, gitignore_name()));
            &&& gitignore_matcher(from, fs[j].content, drops, r.case_sensitive) == Some(m)
            &&& patterns_for(r.drops, joined(to, gitignore_name())) == drops
        }),
    ensures
        found_again(r, old_rel, new_rel, fs, m),
{
    let cs = r.case_sensitive;
    let to = joined(joined(r.source_root, new_rel), below);
    law_strip_joined(r.io_path(new_rel), below);
    assert(r.source_dir(new_rel, fs[j].dir) == to);
    law_folds_joined(r.source_root, old_rel, cs);
    law_folds_joined(r.source_root, new_rel, cs);
    law_folds_joined(joined(r.source_root, old_rel), below, cs);
    law_folds_joined(joined(r.source_root, new_rel), below, cs);
    law_folds_plain(below, cs);
    law_components_joined(r.match_path(old_rel), anchor(below, cs));
    law_components_joined(r.match_path(new_rel), anchor(below, cs));
    let like = Matcher { dir: anchor(to, cs), lines: m.lines };
    let n = components(r.match_path(old_rel)).len() as int;
    assert(components(m.dir).skip(n) =~= pieces(anchor(below, cs)));
    assert(components(like.dir) == components(r.match_path(new_rel)) + components(m.dir).skip(n));
    assert(fs[j] == fs[j]);
}

/// So is one that lies in the directory itself.
pub proof fn law_found_again_at_top(
    r: Rules,
    old_rel: Seq<u8>,
    new_rel: Seq<u8>,
    fs: Seq<Found>,
    j: int,
    m: Matcher,
)
    requires
        folds(r.source_root, r.case_sensitive),
        folds(old_rel, r.case_sensitive),
        folds(new_rel, r.case_sensitive),
        is_plain(new_rel),
        0 <= j < fs.len(),
        rule_file_of(fs[j].name) == RuleFile::Gitignore,
        fs[j].dir == r.io_path(new_rel),
        ({
            let from = joined(r.source_root, old_rel);
            let to = r.source_dir(new_rel, fs[j].dir);
            let drops = patterns_for(r.drops, joined(from, gitignore_name()));
            &&& gitignore_matcher(from, fs[j].content, drops, r.case_sensitive) == Some(m)
            &&& patterns_for(r.drops, joined(to, gitignore_name())) == drops
        }),
    ensures
        found_again(r, old_rel, new_rel, fs, m),
{
    let cs = r.case_sensitive;
    let none = Seq::<u8>::empty();
    let dir = joined(r.source_root, new_rel);
    let to = joined(dir, none);
    let io = r.io_path(new_rel);
    lemma_io_path(r, new_rel);
    lemma_empty_anchor(cs);
    law_strip_self(io);
    assert(r.source_dir(new_rel, fs[j].dir) == to);
    law_folds_joined(r.source_root, old_rel, cs);
    law_folds_joined(r.source_root, new_rel, cs);
    law_folds_joined(dir, none, cs);
    law_joined_stripped(r.match_path(new_rel), io, io);
    lemma_empty_path();
    let like = Matcher { dir: anchor(to, cs), lines: m.lines };
    let n = components(r.match_path(old_rel)).len() as int;
    assert(components(m.dir).skip(n) =~= Seq::<Seq<u8>>::empty());
    assert(components(like.dir) =~= components(r.match_path(new_rel)) + components(m.dir).skip(n));
    assert(fs[j] == fs[j]);
}

/// What a gitignore file inside a renamed directory ignored, it ignores below the new name
/// of the directory.
pub proof fn law_rename_protects_inside(
    r: Rules,
    old_rel: Seq<u8>,
    new_rel: Seq<u8>,
    fs: Seq<Found>,
    rest: Seq<u8>,
    i: int,
    is_dir: bool,
)
    requires
        is_plain(rest),
        0 <= i < r.lists.gitignore.len(),
        starts_with(r.lists.gitignore[i].dir, r.match_path(old_rel)),
        found_again(r, old_rel, new_rel, fs, r.lists.gitignore[i]),
        ignores(r.lists.gitignore[i], joined(r.match_path(old_rel), rest), is_dir),
    ensures
        any_ignores(
            renamed(r, old_rel, new_rel, fs).lists.gitignore,
            joined(r.match_path(new_rel), rest),
            is_dir,
        ),
{
    let m = r.lists.gitignore[i];
    let from = r.match_path(old_rel);
    let to = r.match_path(new_rel);
    let (j, like) = choose|j: int, like: Matcher|
        #![trigger fs[j], components(like.dir)]
        {
            &&& 0 <= j < fs.len()
            &&& rule_file_of(fs[j].name) == RuleFile::Gitignore
            &&& gitignore_matcher(
                r.source_dir(new_rel, fs[j].dir),
                fs[j].content,
                patterns_for(r.drops, joined(r.source_dir(new_rel, fs[j].dir), gitignore_name())),
                r.case_sensitive,
            ) == Some(like)
            &&& like.lines == m.lines
            &&& components(like.dir) == components(to) + components(m.dir).skip(
                components(from).len() as int,
            )
        };
    law_components_joined(from, rest);
    let n = components(from).len() as int;
    let d = components(m.dir).len() as int;
    let k = d - n;
    assert(components(joined(from, rest)).take(d) == components(m.dir));
    assert(components(m.dir).take(n) == components(from));
    assert(components(m.dir).skip(n) =~= pieces(rest).take(k));
    assert(components(m.dir) =~= components(from) + pieces(rest).take(k));
    law_strip_between(from, rest, m.dir, k);
    law_strip_between(to, rest, like.dir, k);
    law_rename_rereads(r, old_rel, new_rel, fs, j, like);
    let all = renamed(r, old_rel, new_rel, fs).lists.gitignore;
    let q = choose|q: int| 0 <= q < all.len() && all[q] == like;
    assert(ignores(all[q], joined(to, rest), is_dir));
}

/// The same of a path below the renamed directory: it neither passes through nor can it
/// be read as a `.gitignore`.
pub proof fn law_rename_protects_inside_path(
    r: Rules,
    old_rel: Seq<u8>,
    new_rel: Seq<u8>,
    fs: Seq<Found>,
    rest: Seq<u8>,
    i: int,
    is_dir: bool,
)
    requires
        is_plain(old_rel),
        is_plain(new_rel),
        is_plain(rest),
        folds(old_rel, r.case_sensitive),
        folds(new_rel, r.case_sensitive),
        folds(rest, r.case_sensitive),
        0 <= i < r.lists.gitignore.len(),
        starts_with(r.lists.gitignore[i].dir, r.match_path(old_rel)),
        found_again(r, old_rel, new_rel, fs, r.lists.gitignore[i]),
        ignores(r.lists.gitignore[i], r.match_path(joined(old_rel, rest)), is_dir),
    ensures
        renamed(r, old_rel, new_rel, fs).class_of(joined(new_rel, rest), is_dir)
            != PathClass::Passthrough,
        renamed(r, old_rel, new_rel, fs).class_of(joined(new_rel, rest), is_dir)
            != PathClass::GitignoreFile,
{
    let cs = r.case_sensitive;
    law_folds_joined(old_rel, rest, cs);
    law_folds_joined(new_rel, rest, cs);
    law_folds_plain(old_rel, cs);
    law_folds_plain(new_rel, cs);
    law_folds_plain(rest, cs);
    law_joined_thrice(r.match_root(), anchor(old_rel, cs), anchor(rest, cs));
    law_joined_thrice(r.match_root(), anchor(new_rel, cs), anchor(rest, cs));
    law_rename_protects_inside(r, old_rel, new_rel, fs, anchor(rest, cs), i, is_dir);
}

/// Whether no configuration among found files counts.
pub open spec fn no_configs(r: Rules, fs: Seq<Found>) -> bool {
    r.children != ChildConfigs::Compose || forall|j: int|
        0 <= j < fs.len() ==> rule_file_of((#[trigger] fs[j]).name) != RuleFile::Shadowconfig
}

/// A configuration below a renamed directory takes no effect where those below the source
/// root do not count.
pub proof fn law_rename_skips_configs(
    r: Rules,
    old_rel: Seq<u8>,
    new_rel: Seq<u8>,
    fs: Seq<Found>,
)
    requires
        no_configs(r, fs),
    ensures
        r.lists_renamed(old_rel, new_rel, fs).ignore == outside(
            r.lists.ignore,
            r.match_path(old_rel),
        ),
        r.lists_renamed(old_rel, new_rel, fs).writable == outside(
            r.lists.writable,
            r.match_path(old_rel),
        ),
        r.lists_renamed_elsewhere(old_rel, new_rel, fs).ignore == outside(
            outside(r.lists.ignore, r.match_path(old_rel)),
            r.match_path(new_rel),
        ),
        r.lists_renamed_elsewhere(old_rel, new_rel, fs).writable == outside(
            outside(r.lists.writable, r.match_path(old_rel)),
            r.match_path(new_rel),
        ),
{
    let once = lists_outside(r.lists, r.match_path(old_rel));
    lemma_files_keep(r, once, new_rel, fs);
    lemma_files_keep(r, lists_outside(once, r.match_path(new_rel)), new_rel, fs);
}

proof fn lemma_files_keep(r: Rules, l: Lists, new: Seq<u8>, fs: Seq<Found>)
    requires
        no_configs(r, fs),
    ensures
        r.with_files(l, new, fs).ignore == l.ignore,
        r.with_files(l, new, fs).writable == l.writable,
    decreases fs.len(),
{
    if fs.len() > 0 {
        let front = fs.drop_last();
        if r.children == ChildConfigs::Compose {
            assert forall|j: int| 0 <= j < front.len() implies rule_file_of(
                (#[trigger] front[j]).name,
            ) != RuleFile::Shadowconfig by {
                assert(front[j] == fs[j]);
            }
        }
        lemma_files_keep(r, l, new, front);
        assert(fs[fs.len() - 1] == fs.last());
    }
}

/// What is blocked stays blocked when a directory above it is renamed for the first time,
/// whether a gitignore file above the directory or one inside it ignores it. Holds where
/// no configuration counts, and where the gitignore files inside the directory are found
/// again as they were; where case does not count, of paths in ASCII.
pub proof fn law_rename_stays_blocked(
    r: Rules,
    old_rel: Seq<u8>,
    new_rel: Seq<u8>,
    fs: Seq<Found>,
    rest: Seq<u8>,
    is_dir: bool,
)
    requires
        r.moves.len() == 0,
        r.lists.ignore.len() == 0,
        r.lists.writable.len() == 0,
        no_configs(r, fs),
        is_plain(old_rel),
        is_plain(new_rel),
        is_plain(rest),
        folds(old_rel, r.case_sensitive),
        folds(new_rel, r.case_sensitive),
        folds(rest, r.case_sensitive),
        forall|i: int|
            0 <= i < r.lists.gitignore.len() && starts_with(
                (#[trigger] r.lists.gitignore[i]).dir,
                r.match_path(old_rel),
            ) ==> found_again(r, old_rel, new_rel, fs, r.lists.gitignore[i]),
        r.class_of(joined(old_rel, rest), is_dir) == PathClass::Blocked,
    ensures
        renamed(r, old_rel, new_rel, fs).class_of(joined(new_rel, rest), is_dir)
            == PathClass::Blocked,
{
    let cs = r.case_sensitive;
    let from = anchor(old_rel, cs);
    let to = anchor(new_rel, cs);
    let end = anchor(rest, cs);
    let was = r.match_path(joined(old_rel, rest));
    let path = r.match_path(joined(new_rel, rest));
    let now = renamed(r, old_rel, new_rel, fs);
    law_folds_joined(old_rel, rest, cs);
    law_folds_joined(new_rel, rest, cs);
    law_folds_plain(old_rel, cs);
    law_folds_plain(new_rel, cs);
    law_folds_plain(rest, cs);
    law_plain_joined(from, end);
    law_strip_joined(r.match_root(), joined(from, end));
    law_joined_thrice(r.match_root(), from, end);
    law_joined_thrice(r.match_root(), to, end);
    assert(r.moves =~= Seq::<Move>::empty());
    assert(any_ignores(r.lists.gitignore, was, is_dir));
    let i = choose|i: int|
        0 <= i < r.lists.gitignore.len() && #[trigger] ignores(
            r.lists.gitignore[i],
            was,
            is_dir,
        );
    if starts_with(r.lists.gitignore[i].dir, r.match_path(old_rel)) {
        law_rename_protects_inside(r, old_rel, new_rel, fs, end, i, is_dir);
    } else {
        law_first_rename_protects(r, old_rel, new_rel, fs, end, i, is_dir);
    }
    assert(now.gitignored(path, is_dir));
    law_joined_name(old_rel, rest);
    law_joined_name(new_rel, rest);
    let base = lists_outside(r.lists, r.match_path(old_rel));
    lemma_files_keep(r, base, new_rel, fs);
    reveal(Seq::filter);
    assert(base.ignore.len() == 0);
    assert(base.writable.len() == 0);
}

/// What rule files below `new` add to lists.
proof fn lemma_files_add(r: Rules, l: Lists, new: Seq<u8>, fs: Seq<Found>)
    ensures
        ({
            let all = r.with_files(l, new, fs);
            let more = r.with_files(no_lists(), new, fs);
            &&& all.gitignore == l.gitignore + more.gitignore
            &&& all.ignore == l.ignore + more.ignore
            &&& all.writable == l.writable + more.writable
        }),
    decreases fs.len(),
{
    let all = r.with_files(l, new, fs);
    let more = r.with_files(no_lists(), new, fs);
    if fs.len() > 0 {
        lemma_files_add(r, l, new, fs.drop_last());
    }
    assert(all.gitignore =~= l.gitignore + more.gitignore);
    assert(all.ignore =~= l.ignore + more.ignore);
    assert(all.writable =~= l.writable + more.writable);
}

/// Whether every matcher of a list is anchored at `dir` or below it.
spec fn all_below(ms: Seq<Matcher>, dir: Seq<u8>) -> bool {
    forall|i: int| 0 <= i < ms.len() ==> starts_with((#[trigger] ms[i]).dir, dir)
}

/// Whether the directory of every found file lies below `new` as it is matched.
pub open spec fn files_below(r: Rules, new: Seq<u8>, fs: Seq<Found>) -> bool {
    forall|j: int|
        0 <= j < fs.len() ==> starts_with(
            anchor(r.source_dir(new, (#[trigger] fs[j]).dir), r.case_sensitive),
            r.match_path(new),
        )
}

proof fn lemma_files_below(r: Rules, new: Seq<u8>, fs: Seq<Found>)
    requires
        files_below(r, new, fs),
    ensures
        ({
            let more = r.with_files(no_lists(), new, fs);
            &&& all_below(more.gitignore, r.match_path(new))
            &&& all_below(more.ignore, r.match_path(new))
            &&& all_below(more.writable, r.match_path(new))
        }),
    decreases fs.len(),
{
    if fs.len() > 0 {
        let front = fs.drop_last();
        assert forall|j: int| 0 <= j < front.len() implies starts_with(
            anchor(r.source_dir(new, (#[trigger] front[j]).dir), r.case_sensitive),
            r.match_path(new),
        ) by {
            assert(front[j] == fs[j]);
        }
        lemma_files_below(r, new, front);
        assert(fs[fs.len() - 1] == fs.last());
    }
}

proof fn lemma_outside_again(ms: Seq<Matcher>, more: Seq<Matcher>, a: Seq<u8>, b: Seq<u8>)
    requires
        all_below(more, b),
    ensures
        outside(outside(outside(outside(ms, a), b) + more, a), b) == outside(outside(ms, a), b),
{
    let p = |m: Matcher| !starts_with(m.dir, a);
    let q = |m: Matcher| !starts_with(m.dir, b);
    let base = ms.filter(p).filter(q);
    broadcast use vstd::seq_lib::group_filter_ensures;

    Seq::filter_distributes_over_add(base, more, p);
    Seq::filter_distributes_over_add(base.filter(p), more.filter(p), q);
    assert forall|i: int| 0 <= i < base.len() implies p(#[trigger] base[i]) && q(base[i]) by {
        assert(base.contains(base[i]));
        ms.filter(p).lemma_filter_contains_rev(q, base[i]);
        let kept = ms.filter(p);
        let k = choose|k: int| 0 <= k < kept.len() && kept[k] == base[i];
        assert(p(kept[k]));
    }
    lemma_filter_all(base, p);
    lemma_filter_all(base, q);
    let left = more.filter(p).filter(q);
    if left.len() > 0 {
        assert(left.contains(left[0]));
        more.filter(p).lemma_filter_contains_rev(q, left[0]);
        more.lemma_filter_contains_rev(p, left[0]);
        let i = choose|i: int| 0 <= i < more.len() && more[i] == left[0];
        assert(starts_with(more[i].dir, b));
    }
    assert(base + left =~= base);
}

proof fn lemma_filter_all(ms: Seq<Matcher>, p: spec_fn(Matcher) -> bool)
    requires
        forall|i: int| 0 <= i < ms.len() ==> p(#[trigger] ms[i]),
    ensures
        ms.filter(p) == ms,
    decreases ms.len(),
{
    reveal(Seq::filter);
    if ms.len() > 0 {
        let front = ms.drop_last();
        assert forall|i: int| 0 <= i < front.len() implies p(#[trigger] front[i]) by {
            assert(front[i] == ms[i]);
        }
        lemma_filter_all(front, p);
        assert(p(ms[ms.len() - 1]));
        assert(front.push(ms.last()) =~= ms);
    } else {
        assert(ms.filter(p) =~= ms);
    }
}

/// Following a rename that was made elsewhere a second time changes nothing: no matcher is
/// there twice, and none is lost.
pub proof fn law_refresh_twice(r: Rules, old_rel: Seq<u8>, new_rel: Seq<u8>, fs: Seq<Found>)
    requires
        files_below(r, new_rel, fs),
    ensures
        ({
            let once = r.lists_renamed_elsewhere(old_rel, new_rel, fs);
            (Rules { lists: once, ..r }).lists_renamed_elsewhere(old_rel, new_rel, fs) == once
        }),
{
    let a = r.match_path(old_rel);
    let b = r.match_path(new_rel);
    let base = lists_outside(lists_outside(r.lists, a), b);
    let once = r.with_files(base, new_rel, fs);
    let more = r.with_files(no_lists(), new_rel, fs);
    let again = Rules { lists: once, ..r };
    lemma_files_add(r, base, new_rel, fs);
    lemma_files_below(r, new_rel, fs);
    lemma_outside_again(r.lists.gitignore, more.gitignore, a, b);
    lemma_outside_again(r.lists.ignore, more.ignore, a, b);
    lemma_outside_again(r.lists.writable, more.writable, a, b);
    let next = lists_outside(lists_outside(again.lists, a), b);
    assert(next =~= base);
    lemma_with_files_same(again, r, base, new_rel, fs);
}

/// Whether a directory is `top`, or lies below it by names alone.
pub open spec fn lies_below(top: Seq<u8>, dir: Seq<u8>, case_sensitive: bool) -> bool {
    dir == top || exists|below: Seq<u8>|
        is_plain(below) && folds(below, case_sensitive) && dir == #[trigger] joined(top, below)
}

/// What was found below the new name of a directory counts from below that name; where
/// case does not count, of paths in ASCII.
pub proof fn law_files_below(r: Rules, new_rel: Seq<u8>, fs: Seq<Found>)
    requires
        is_plain(new_rel),
        folds(r.source_root, r.case_sensitive),
        folds(new_rel, r.case_sensitive),
        forall|j: int|
            0 <= j < fs.len() ==> lies_below(
                r.io_path(new_rel),
                (#[trigger] fs[j]).dir,
                r.case_sensitive,
            ),
    ensures
        files_below(r, new_rel, fs),
{
    let cs = r.case_sensitive;
    let none = Seq::<u8>::empty();
    let dir = joined(r.source_root, new_rel);
    let io = r.io_path(new_rel);
    let top = r.match_path(new_rel);
    lemma_io_path(r, new_rel);
    lemma_empty_anchor(cs);
    lemma_empty_path();
    law_folds_joined(r.source_root, new_rel, cs);
    assert forall|j: int| 0 <= j < fs.len() implies starts_with(
        anchor(r.source_dir(new_rel, (#[trigger] fs[j]).dir), cs),
        top,
    ) by {
        assert(lies_below(io, fs[j].dir, cs));
        let n = components(top).len() as int;
        if fs[j].dir == io {
            law_strip_self(io);
            law_folds_joined(dir, none, cs);
            law_joined_stripped(top, io, io);
            assert((components(top) + components(none)).take(n) =~= components(top));
        } else {
            let below = choose|below: Seq<u8>|
                is_plain(below) && folds(below, cs) && fs[j].dir == #[trigger] joined(io, below);
            law_strip_joined(io, below);
            law_folds_joined(dir, below, cs);
            law_folds_plain(below, cs);
            law_components_joined(top, anchor(below, cs));
            assert((components(top) + pieces(anchor(below, cs))).take(n) =~= components(top));
        }
    }
}

proof fn lemma_io_path(r: Rules, rel: Seq<u8>)
    requires
        is_plain(rel),
    ensures
        components(r.io_path(rel)).len() > 0,
{
    crate::path::lemma_pieces_len(rel);
    lemma_plain_relative(rel);
    match r.io_root {
        Some(root) => law_components_joined(root, rel),
        None => law_components_joined(r.source_root, rel),
    }
}

proof fn lemma_empty_anchor(case_sensitive: bool)
    ensures
        anchor(Seq::<u8>::empty(), case_sensitive) == Seq::<u8>::empty(),
        folds(Seq::<u8>::empty(), case_sensitive),
{
    let none = Seq::<u8>::empty();
    lemma_ascii_path(none);
    assert(lower_bytes(none) =~= none);
}

} // verus!
