//! What holds of rules that are loaded from a source tree.

use crate::aliases::moves_of;
use crate::config::{shadowconfig_of, Config, Rename};
use crate::found::{drop_target, patterns_for, rule_file_of, text_of, DropAt, Found, RuleFile};
use crate::lists::{outside, with_config, with_gitignore, Lists};
use crate::load::{
    ancestors_of, names, pairs_of, root_drops, scan_ancestors, scan_step, scan_tree, ChildConfigs,
    Failure, Reading, Scan,
};
use crate::matcher::{gitignore_matcher, pattern_matcher, Matcher};
use crate::path::{components, joined, kept, parent, pieces, starts_with};
use crate::path_laws::law_parent_shorter;
use crate::rules::{loaded, Rules, Stamp};
use vstd::prelude::*;
use vstd::utf8::encode_utf8;

verus! {

/// A rule file is known by its name, byte for byte.
pub proof fn law_rule_file_names(name: Seq<u8>)
    ensures
        rule_file_of(name) == RuleFile::Gitignore <==> name == encode_utf8(".gitignore"@),
        rule_file_of(name) == RuleFile::Shadowconfig <==> name == encode_utf8(".shadowconfig"@),
{
    reveal_strlit(".gitignore");
    reveal_strlit(".shadowconfig");
    vstd::utf8::encode_utf8_decode_utf8(".gitignore"@);
    vstd::utf8::encode_utf8_decode_utf8(".shadowconfig"@);
    assert(".gitignore"@.len() != ".shadowconfig"@.len());
}

/// Whether a file is a gitignore file that gives a matcher.
pub open spec fn gives(f: Found, drops: Seq<DropAt>, case_sensitive: bool, m: Matcher) -> bool {
    f.name == encode_utf8(".gitignore"@) && gitignore_matcher(
        f.dir,
        f.content,
        patterns_for(drops, joined(f.dir, encode_utf8(".gitignore"@))),
        case_sensitive,
    ) == Some(m)
}

/// The configuration that counts in a file: it is at the source root, or those below it
/// count.
pub open spec fn counted_config(f: Found, how: Reading) -> Option<Config> {
    if f.name == encode_utf8(".shadowconfig"@) && (components(f.dir) == components(how.root)
        || how.children == ChildConfigs::Compose) {
        match text_of(f.content) {
            Some(t) => shadowconfig_of(t),
            None => None,
        }
    } else {
        None
    }
}

/// Whether a file is a configuration whose `[ignore]` section gives a matcher.
pub open spec fn hides(f: Found, how: Reading, m: Matcher) -> bool {
    counted_config(f, how) matches Some(c) && pattern_matcher(f.dir, c.ignore, how.case_sensitive)
        == Some(m)
}

/// Whether a file is a configuration whose `[writable]` section gives a matcher.
pub open spec fn opens(f: Found, how: Reading, m: Matcher) -> bool {
    counted_config(f, how) matches Some(c) && pattern_matcher(
        f.dir,
        c.writable,
        how.case_sensitive,
    ) == Some(m)
}

/// Whether one of the files is a gitignore file that gives a matcher.
pub open spec fn some_gives(
    fs: Seq<Found>,
    drops: Seq<DropAt>,
    case_sensitive: bool,
    m: Matcher,
) -> bool {
    exists|i: int| 0 <= i < fs.len() && gives(#[trigger] fs[i], drops, case_sensitive, m)
}

/// Whether one of the files has an `[ignore]` section that gives a matcher.
pub open spec fn some_hides(fs: Seq<Found>, how: Reading, m: Matcher) -> bool {
    exists|i: int| 0 <= i < fs.len() && hides(#[trigger] fs[i], how, m)
}

/// Whether one of the files has a `[writable]` section that gives a matcher.
pub open spec fn some_opens(fs: Seq<Found>, how: Reading, m: Matcher) -> bool {
    exists|i: int| 0 <= i < fs.len() && opens(#[trigger] fs[i], how, m)
}

proof fn lemma_push_contains<A>(s: Seq<A>, a: A, x: A)
    ensures
        s.push(a).contains(x) <==> s.contains(x) || x == a,
{
    let t = s.push(a);
    assert(t[s.len() as int] == a);
    if s.contains(x) {
        let i = choose|i: int| 0 <= i < s.len() && s[i] == x;
        assert(t[i] == x);
    }
    if t.contains(x) {
        let i = choose|i: int| 0 <= i < t.len() && t[i] == x;
        if i < s.len() {
            assert(s[i] == x);
        }
    }
}

/// One more gitignore file adds its matcher to the gitignore matchers, and nothing else.
pub proof fn law_gitignore_added(
    l: Lists,
    f: Found,
    drops: Seq<DropAt>,
    case_sensitive: bool,
    m: Matcher,
)
    requires
        f.name == encode_utf8(".gitignore"@),
    ensures
        ({
            let now = with_gitignore(l, f.dir, f.content, drops, case_sensitive);
            &&& now.gitignore.contains(m) <==> l.gitignore.contains(m) || gives(
                f,
                drops,
                case_sensitive,
                m,
            )
            &&& now.ignore == l.ignore
            &&& now.writable == l.writable
        }),
{
    let patterns = patterns_for(drops, joined(f.dir, encode_utf8(".gitignore"@)));
    match gitignore_matcher(f.dir, f.content, patterns, case_sensitive) {
        Some(x) => lemma_push_contains(l.gitignore, x, m),
        None => {},
    }
}

/// One more configuration adds the matchers of its two sections, each to its own list, and
/// nothing else.
pub proof fn law_config_added(l: Lists, dir: Seq<u8>, c: Config, case_sensitive: bool, m: Matcher)
    ensures
        ({
            let now = with_config(l, dir, c, case_sensitive);
            &&& now.ignore.contains(m) <==> l.ignore.contains(m) || pattern_matcher(
                dir,
                c.ignore,
                case_sensitive,
            ) == Some(m)
            &&& now.writable.contains(m) <==> l.writable.contains(m) || pattern_matcher(
                dir,
                c.writable,
                case_sensitive,
            ) == Some(m)
            &&& now.gitignore == l.gitignore
        }),
{
    match pattern_matcher(dir, c.ignore, case_sensitive) {
        Some(x) => lemma_push_contains(l.ignore, x, m),
        None => {},
    }
    match pattern_matcher(dir, c.writable, case_sensitive) {
        Some(x) => lemma_push_contains(l.writable, x, m),
        None => {},
    }
}

/// Taking out what lies below a directory takes out that and nothing else.
pub proof fn law_outside_exact(ms: Seq<Matcher>, dir: Seq<u8>, m: Matcher)
    ensures
        outside(ms, dir).contains(m) <==> ms.contains(m) && !starts_with(m.dir, dir),
{
    let f = |x: Matcher| !starts_with(x.dir, dir);
    broadcast use vstd::seq_lib::group_filter_ensures;

    if outside(ms, dir).contains(m) {
        ms.lemma_filter_contains_rev(f, m);
        let i = choose|i: int| 0 <= i < ms.filter(f).len() && ms.filter(f)[i] == m;
        assert(f(ms.filter(f)[i]));
    }
    if ms.contains(m) && !starts_with(m.dir, dir) {
        let i = choose|i: int| 0 <= i < ms.len() && ms[i] == m;
        assert(f(ms[i]));
    }
}

/// Above the source root every gitignore file counts, and nothing else does.
pub proof fn law_ancestors_exact(fs: Seq<Found>, how: Reading, m: Matcher)
    ensures
        scan_ancestors(fs, how).gitignore.contains(m) <==> some_gives(
            fs,
            how.drops,
            how.case_sensitive,
            m,
        ),
        scan_ancestors(fs, how).ignore.len() == 0,
        scan_ancestors(fs, how).writable.len() == 0,
    decreases fs.len(),
{
    let (d, cs) = (how.drops, how.case_sensitive);
    if fs.len() > 0 {
        let front = fs.drop_last();
        let n = fs.len() - 1;
        law_ancestors_exact(front, how, m);
        law_rule_file_names(fs.last().name);
        if rule_file_of(fs.last().name) == RuleFile::Gitignore {
            law_gitignore_added(scan_ancestors(front, how), fs.last(), d, cs, m);
        }
        lemma_some_gives(fs, d, cs, m);
    }
}

proof fn lemma_some_gives(fs: Seq<Found>, drops: Seq<DropAt>, case_sensitive: bool, m: Matcher)
    requires
        fs.len() > 0,
    ensures
        some_gives(fs, drops, case_sensitive, m) <==> some_gives(
            fs.drop_last(),
            drops,
            case_sensitive,
            m,
        ) || gives(fs.last(), drops, case_sensitive, m),
{
    let front = fs.drop_last();
    let n = fs.len() - 1;
    assert(fs[n] == fs.last());
    if some_gives(fs, drops, case_sensitive, m) {
        let i = choose|i: int|
            0 <= i < fs.len() && gives(#[trigger] fs[i], drops, case_sensitive, m);
        if i < n {
            assert(front[i] == fs[i]);
        }
    }
    if some_gives(front, drops, case_sensitive, m) {
        let i = choose|i: int|
            0 <= i < front.len() && gives(#[trigger] front[i], drops, case_sensitive, m);
        assert(front[i] == fs[i]);
    }
}

proof fn lemma_some_sections(fs: Seq<Found>, how: Reading, m: Matcher)
    requires
        fs.len() > 0,
    ensures
        some_hides(fs, how, m) <==> some_hides(fs.drop_last(), how, m) || hides(fs.last(), how, m),
        some_opens(fs, how, m) <==> some_opens(fs.drop_last(), how, m) || opens(fs.last(), how, m),
{
    let front = fs.drop_last();
    let n = fs.len() - 1;
    assert(fs[n] == fs.last());
    if some_hides(fs, how, m) {
        let i = choose|i: int| 0 <= i < fs.len() && hides(#[trigger] fs[i], how, m);
        if i < n {
            assert(front[i] == fs[i]);
        }
    }
    if some_hides(front, how, m) {
        let i = choose|i: int| 0 <= i < front.len() && hides(#[trigger] front[i], how, m);
        assert(front[i] == fs[i]);
    }
    if some_opens(fs, how, m) {
        let i = choose|i: int| 0 <= i < fs.len() && opens(#[trigger] fs[i], how, m);
        if i < n {
            assert(front[i] == fs[i]);
        }
    }
    if some_opens(front, how, m) {
        let i = choose|i: int| 0 <= i < front.len() && opens(#[trigger] front[i], how, m);
        assert(front[i] == fs[i]);
    }
}

/// In the source tree every gitignore file counts and every configuration that is to, and
/// nothing else does.
pub proof fn law_tree_exact(start: Scan, fs: Seq<Found>, how: Reading, m: Matcher)
    ensures
        scan_tree(start, fs, how) matches Ok(s) ==> {
            &&& s.lists.gitignore.contains(m) <==> start.lists.gitignore.contains(m) || some_gives(
                fs,
                how.drops,
                how.case_sensitive,
                m,
            )
            &&& s.lists.ignore.contains(m) <==> start.lists.ignore.contains(m) || some_hides(
                fs,
                how,
                m,
            )
            &&& s.lists.writable.contains(m) <==> start.lists.writable.contains(m) || some_opens(
                fs,
                how,
                m,
            )
        },
    decreases fs.len(),
{
    if fs.len() > 0 && scan_tree(start, fs, how) is Ok {
        let front = fs.drop_last();
        let f = fs.last();
        law_tree_exact(start, front, how, m);
        let before = scan_tree(start, front, how)->Ok_0;
        law_rule_file_names(f.name);
        lemma_some_gives(fs, how.drops, how.case_sensitive, m);
        lemma_some_sections(fs, how, m);
        if rule_file_of(f.name) == RuleFile::Gitignore {
            law_gitignore_added(before.lists, f, how.drops, how.case_sensitive, m);
        } else if rule_file_of(f.name) == RuleFile::Shadowconfig {
            if counted_config(f, how) is Some {
                law_config_added(
                    before.lists,
                    f.dir,
                    counted_config(f, how)->0,
                    how.case_sensitive,
                    m,
                );
            }
        }
    }
}

/// Loaded rules have the matcher of every gitignore file above the source root and in it,
/// those of the sections of every configuration that counts, and no others.
pub proof fn law_loaded_exact(
    root: Seq<u8>,
    above: Seq<Found>,
    tree: Seq<Found>,
    stamp: Stamp,
    case_sensitive: bool,
    children: ChildConfigs,
    home: Option<Seq<u8>>,
    m: Matcher,
)
    ensures
        loaded(root, above, tree, stamp, case_sensitive, children, home) matches Ok(r) ==> {
            let how = Reading { root, case_sensitive, children, drops: r.drops };
            &&& r.lists.gitignore.contains(m) <==> some_gives(above, r.drops, case_sensitive, m)
                || some_gives(tree, r.drops, case_sensitive, m)
            &&& r.lists.ignore.contains(m) <==> some_hides(tree, how, m)
            &&& r.lists.writable.contains(m) <==> some_opens(tree, how, m)
        },
{
    let drops = root_drops(tree, root, home);
    let how = Reading { root, case_sensitive, children, drops };
    let start = Scan { lists: scan_ancestors(above, how), renames: Seq::<Rename>::empty() };
    law_ancestors_exact(above, how, m);
    law_tree_exact(start, tree, how, m);
}

/// Loaded rules are those of the given tree and mode; they are read and written where the
/// tree is, and have the renames and the patterns to take out of the one configuration at
/// the source root.
pub proof fn law_loaded_rest(
    root: Seq<u8>,
    above: Seq<Found>,
    tree: Seq<Found>,
    stamp: Stamp,
    case_sensitive: bool,
    children: ChildConfigs,
    home: Option<Seq<u8>>,
    i: int,
    c: Config,
)
    requires
        0 <= i < tree.len(),
        tree[i].name == encode_utf8(".shadowconfig"@),
        components(tree[i].dir) == components(root),
        forall|j: int|
            0 <= j < tree.len() && j != i && (#[trigger] tree[j]).name == encode_utf8(
                ".shadowconfig"@,
            ) ==> components(tree[j].dir) != components(root),
        text_of(tree[i].content) matches Some(t) && shadowconfig_of(t) == Some(c),
    ensures
        loaded(root, above, tree, stamp, case_sensitive, children, home) matches Ok(r) ==> {
            &&& r.source_root == root
            &&& r.case_sensitive == case_sensitive
            &&& r.children == children
            &&& r.stamp == stamp
            &&& r.io_root is None
            &&& r.moves == moves_of(c.folder_renames, case_sensitive)
            &&& forall|p: (Seq<char>, Seq<char>)| #[trigger]
                r.known.contains(p) <==> exists|k: int|
                    0 <= k < c.folder_renames.len() && (#[trigger] c.folder_renames[k]).from == p.0
                        && c.folder_renames[k].to == p.1
            &&& r.drops.len() == c.gitignore_drop.len()
            &&& forall|k: int|
                0 <= k < r.drops.len() ==> (#[trigger] r.drops[k]).patterns
                    == c.gitignore_drop[k].patterns && r.drops[k].file == drop_target(
                    c.gitignore_drop[k].gitignore,
                    root,
                    home,
                )
        },
{
    let drops = root_drops(tree, root, home);
    let how = Reading { root, case_sensitive, children, drops };
    let start = Scan { lists: scan_ancestors(above, how), renames: Seq::<Rename>::empty() };
    law_rule_file_names(tree[i].name);
    lemma_root_config(tree, root, i);
    assert forall|j: int|
        0 <= j < tree.len() && j != i && rule_file_of((#[trigger] tree[j]).name)
            == RuleFile::Shadowconfig implies components(tree[j].dir) != components(how.root) by {
        law_rule_file_names(tree[j].name);
    }
    crate::laws::law_load_renames(start, tree, how, i);
    if loaded(root, above, tree, stamp, case_sensitive, children, home) is Ok {
        let r = loaded(root, above, tree, stamp, case_sensitive, children, home)->Ok_0;
        let rs = c.folder_renames;
        assert forall|p: (Seq<char>, Seq<char>)| #[trigger] r.known.contains(p) <==> exists|k: int|
            0 <= k < rs.len() && (#[trigger] rs[k]).from == p.0 && rs[k].to == p.1 by {
            if r.known.contains(p) {
                let k = choose|k: int| 0 <= k < rs.len() && names(rs[k]) == p;
                assert(rs[k].from == p.0);
            }
            if exists|k: int| 0 <= k < rs.len() && (#[trigger] rs[k]).from == p.0 && rs[k].to == p.1 {
                let k = choose|k: int|
                    0 <= k < rs.len() && (#[trigger] rs[k]).from == p.0 && rs[k].to == p.1;
                assert(names(rs[k]) == p);
                assert(pairs_of(rs).contains(p));
            }
        }
    }
}

proof fn lemma_root_config(fs: Seq<Found>, root: Seq<u8>, i: int)
    requires
        0 <= i < fs.len(),
        fs[i].name == encode_utf8(".shadowconfig"@),
        components(fs[i].dir) == components(root),
        forall|j: int|
            0 <= j < fs.len() && j != i && (#[trigger] fs[j]).name == encode_utf8(".shadowconfig"@)
                ==> components(fs[j].dir) != components(root),
    ensures
        crate::load::root_text(fs, root) == text_of(fs[i].content),
    decreases fs.len(),
{
    law_rule_file_names(fs.last().name);
    if i < fs.len() - 1 {
        let front = fs.drop_last();
        assert(fs[fs.len() - 1] == fs.last());
        assert forall|j: int|
            0 <= j < front.len() && j != i && (#[trigger] front[j]).name == encode_utf8(
                ".shadowconfig"@,
            ) implies components(front[j].dir) != components(root) by {
            assert(front[j] == fs[j]);
        }
        lemma_root_config(front, root, i);
    }
}

/// Without a configuration at the source root there are no renames and nothing to take out.
pub proof fn law_loaded_bare(
    root: Seq<u8>,
    above: Seq<Found>,
    tree: Seq<Found>,
    stamp: Stamp,
    case_sensitive: bool,
    children: ChildConfigs,
    home: Option<Seq<u8>>,
)
    requires
        forall|j: int|
            0 <= j < tree.len() && (#[trigger] tree[j]).name == encode_utf8(".shadowconfig"@)
                ==> components(tree[j].dir) != components(root),
    ensures
        loaded(root, above, tree, stamp, case_sensitive, children, home) matches Ok(r) ==> {
            &&& r.source_root == root
            &&& r.case_sensitive == case_sensitive
            &&& r.children == children
            &&& r.stamp == stamp
            &&& r.io_root is None
            &&& r.moves.len() == 0
            &&& r.drops.len() == 0
            &&& forall|p: (Seq<char>, Seq<char>)| !(#[trigger] r.known.contains(p))
        },
{
    let drops = root_drops(tree, root, home);
    let how = Reading { root, case_sensitive, children, drops };
    let start = Scan { lists: scan_ancestors(above, how), renames: Seq::<Rename>::empty() };
    lemma_no_root(start, tree, how);
}

proof fn lemma_no_root(start: Scan, fs: Seq<Found>, how: Reading)
    requires
        forall|j: int|
            0 <= j < fs.len() && (#[trigger] fs[j]).name == encode_utf8(".shadowconfig"@)
                ==> components(fs[j].dir) != components(how.root),
    ensures
        crate::load::root_text(fs, how.root) is None,
        scan_tree(start, fs, how) matches Ok(s) ==> s.renames == start.renames,
    decreases fs.len(),
{
    if fs.len() > 0 {
        let front = fs.drop_last();
        assert forall|j: int|
            0 <= j < front.len() && (#[trigger] front[j]).name == encode_utf8(
                ".shadowconfig"@,
            ) implies components(front[j].dir) != components(how.root) by {
            assert(front[j] == fs[j]);
        }
        lemma_no_root(start, front, how);
        assert(fs[fs.len() - 1] == fs.last());
        law_rule_file_names(fs.last().name);
    }
}

/// What is wrong with a file, if anything: only a configuration can be wrong. One below the
/// source root is where it is to be refused, and where it is to count and records renames;
/// one that counts is where it cannot be read or parsed.
pub open spec fn wrong_with(f: Found, how: Reading) -> Option<Failure> {
    let path = joined(f.dir, encode_utf8(".shadowconfig"@));
    let at_root = components(f.dir) == components(how.root);
    if f.name != encode_utf8(".shadowconfig"@) || (!at_root && how.children == ChildConfigs::Skip) {
        None
    } else if !at_root && how.children == ChildConfigs::Reject {
        Some(Failure::Nested(path))
    } else if text_of(f.content) is None {
        Some(Failure::Reading(path))
    } else if shadowconfig_of(text_of(f.content)->0) is None {
        Some(Failure::Parsing(path))
    } else if !at_root && shadowconfig_of(text_of(f.content)->0)->0.folder_renames.len() > 0 {
        Some(Failure::NestedRenames(path, joined(how.root, encode_utf8(".shadowconfig"@))))
    } else {
        None
    }
}

/// Loading a tree succeeds exactly where nothing is wrong with any file, and otherwise
/// fails with what is wrong with the first that something is wrong with.
pub proof fn law_load_fails(start: Scan, fs: Seq<Found>, how: Reading)
    ensures
        scan_tree(start, fs, how) is Ok <==> forall|i: int|
            0 <= i < fs.len() ==> wrong_with(#[trigger] fs[i], how) is None,
        forall|i: int|
            0 <= i < fs.len() && wrong_with(#[trigger] fs[i], how) is Some && (forall|j: int|
                0 <= j < i ==> wrong_with(#[trigger] fs[j], how) is None) ==> scan_tree(
                start,
                fs,
                how,
            ) == Err::<Scan, Failure>(wrong_with(fs[i], how)->0),
    decreases fs.len(),
{
    if fs.len() > 0 {
        let front = fs.drop_last();
        let n = fs.len() - 1;
        law_load_fails(start, front, how);
        law_rule_file_names(fs.last().name);
        assert(fs[n] == fs.last());
        assert(forall|j: int| 0 <= j < n ==> front[j] == fs[j]);
        if scan_tree(start, front, how) is Ok {
            let s = scan_tree(start, front, how)->Ok_0;
            assert(forall|j: int| 0 <= j < n ==> wrong_with(#[trigger] front[j], how) is None);
            assert forall|j: int| 0 <= j < n implies wrong_with(#[trigger] fs[j], how) is None by {
                assert(front[j] == fs[j]);
            }
            assert(scan_step(s, fs.last(), how) is Ok <==> wrong_with(fs[n], how) is None);
        } else {
            let k = choose|k: int| 0 <= k < n && wrong_with(#[trigger] front[k], how) is Some;
            assert(wrong_with(fs[k], how) is Some);
        }
        assert forall|i: int|
            0 <= i < fs.len() && wrong_with(#[trigger] fs[i], how) is Some && (forall|j: int|
                0 <= j < i ==> wrong_with(#[trigger] fs[j], how) is None) implies scan_tree(
            start,
            fs,
            how,
        ) == Err::<Scan, Failure>(wrong_with(fs[i], how)->0) by {
            if i < n {
                assert(front[i] == fs[i]);
                assert forall|j: int| 0 <= j < i implies wrong_with(#[trigger] front[j], how) is None by {
                    assert(front[j] == fs[j]);
                    assert(wrong_with(fs[j], how) is None);
                }
            } else {
                assert forall|j: int| 0 <= j < front.len() implies wrong_with(
                    #[trigger] front[j],
                    how,
                ) is None by {
                    assert(front[j] == fs[j]);
                    assert(wrong_with(fs[j], how) is None);
                }
            }
        }
    }
}

/// The directories above a path are all of them, nearest first: each has one component
/// less than the one before it, up to the one that has none above it.
pub proof fn law_ancestors_all(t: Seq<u8>)
    ensures
        ancestors_of(t).len() == kept(pieces(t)).len(),
        forall|i: int|
            0 <= i < ancestors_of(t).len() ==> components(#[trigger] ancestors_of(t)[i])
                == components(t).take(components(t).len() - 1 - i),
    decreases kept(pieces(t)).len(),
{
    law_parent_shorter(t);
    match parent(t) {
        Some(p) => {
            law_ancestors_all(p);
            let all = ancestors_of(t);
            let rest = ancestors_of(p);
            assert(all == seq![p] + rest);
            assert(kept(pieces(p)).len() == kept(pieces(t)).len() - 1) by {
                crate::path_laws::lemma_up_to(t, kept(pieces(t)).len() - 1);
            }
            assert forall|i: int| 0 <= i < all.len() implies components(#[trigger] all[i])
                == components(t).take(components(t).len() - 1 - i) by {
                if i > 0 {
                    assert(all[i] == rest[i - 1]);
                    assert(components(p).take(components(p).len() - 1 - (i - 1)) =~= components(
                        t,
                    ).take(components(t).len() - 1 - i));
                } else {
                    assert(components(t).drop_last() =~= components(t).take(
                        components(t).len() - 1,
                    ));
                }
            }
        },
        None => {},
    }
}

/// Rules are loaded exactly where nothing is wrong with any file of the tree, whatever lies
/// above it; otherwise loading fails with what is wrong with the first such file.
pub proof fn law_loaded_fails(
    root: Seq<u8>,
    above: Seq<Found>,
    tree: Seq<Found>,
    stamp: Stamp,
    case_sensitive: bool,
    children: ChildConfigs,
    home: Option<Seq<u8>>,
    drops: Seq<DropAt>,
)
    ensures
        ({
            let how = Reading { root, case_sensitive, children, drops };
            let out = loaded(root, above, tree, stamp, case_sensitive, children, home);
            &&& out is Ok <==> forall|i: int|
                0 <= i < tree.len() ==> wrong_with(#[trigger] tree[i], how) is None
            &&& forall|i: int|
                0 <= i < tree.len() && wrong_with(#[trigger] tree[i], how) is Some && (forall|
                    j: int,
                |
                    0 <= j < i ==> wrong_with(#[trigger] tree[j], how) is None) ==> out == Err::<
                    Rules,
                    Failure,
                >(wrong_with(tree[i], how)->0)
        }),
{
    let asked = Reading { root, case_sensitive, children, drops };
    let how = Reading { root, case_sensitive, children, drops: root_drops(tree, root, home) };
    let start = Scan { lists: scan_ancestors(above, how), renames: Seq::<Rename>::empty() };
    law_load_fails(start, tree, how);
    let out = loaded(root, above, tree, stamp, case_sensitive, children, home);
    assert forall|i: int| 0 <= i < tree.len() implies wrong_with(#[trigger] tree[i], asked)
        == wrong_with(tree[i], how) by {}
    assert forall|i: int|
        0 <= i < tree.len() && wrong_with(#[trigger] tree[i], asked) is Some && (forall|j: int|
            0 <= j < i ==> wrong_with(#[trigger] tree[j], asked) is None) implies out == Err::<
        Rules,
        Failure,
    >(wrong_with(tree[i], asked)->0) by {
        assert forall|j: int| 0 <= j < i implies wrong_with(#[trigger] tree[j], how) is None by {
            assert(wrong_with(tree[j], asked) is None);
        }
        assert(wrong_with(tree[i], how) is Some);
    }
    if out is Ok {
        assert forall|i: int| 0 <= i < tree.len() implies wrong_with(
            #[trigger] tree[i],
            asked,
        ) is None by {
            assert(wrong_with(tree[i], how) is None);
        }
    }
    if forall|i: int| 0 <= i < tree.len() ==> wrong_with(#[trigger] tree[i], asked) is None {
        assert forall|i: int| 0 <= i < tree.len() implies wrong_with(
            #[trigger] tree[i],
            how,
        ) is None by {
            assert(wrong_with(tree[i], asked) is None);
        }
    }
}

} // verus!
