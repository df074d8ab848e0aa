//! The rules: how each path of the source tree is classified, and how renames and a
//! changed configuration change that.

use crate::aliases::{
    build_alias_map, build_moves, move_list, moves_of, older_names, record_alias, stands_for, table,
    AliasMap, Aliases, DirMove, Move,
};
use crate::bytes::bytes_eq;
use crate::config::{
    config_fault, empty_config, parse_shadowconfig, renames, serialize_shadowconfig,
    shadowconfig_of, shadowconfig_text, Config, ConfigError, FolderRename, Rename, ShadowConfig,
};
use crate::found::{
    drop_rules, drops_at, file_text, found_files, path_view, rule_file, rule_file_of, text_of,
    DropAt, DropRule, Found, FoundFile, RuleFile,
};
use crate::lists::{any_matches, lists_outside, with_config, with_gitignore, Lists, MatcherLists};
use crate::load::{
    absolute_dirs, find_root_drops, holds_config, lemma_load_saved, names, pairs_of, root_config,
    root_drops, scan_ancestors, scan_tree, ChildConfigs, Failure, LoadError, ReadRules, Reading,
    Scan, Scanner,
};
use crate::matcher::{anchor, anchored, any_ignores, content_view};
use crate::path::{file_name, is_absolute, joined, or_dot, paths, strip, FsPath};
use crate::text::{
    ascii_lowered, is_ascii_text, lower_form, text_form, to_lower, to_text_lossy, trim, trimmed,
};
use vstd::prelude::*;
use vstd::utf8::encode_utf8;

verus! {

/// What may be done with a path.
#[derive(Debug, Clone, Copy, PartialEq, Eq, Structural)]
pub enum PathClass {
    /// It does not exist.
    Hidden,
    /// It can be seen but not opened.
    Blocked,
    /// It lives in the overlay.
    WritableOverlay,
    /// It can be read but not written.
    GitignoreFile,
    /// It can be read and written.
    Passthrough,
}

/// When the configuration at the source root was last changed, and how long it is.
#[derive(Debug, Clone, Copy, PartialEq, Eq, Structural)]
pub struct Stamp {
    /// Whether the time of the last change is known.
    pub timed: bool,
    /// The seconds of that time.
    pub secs: i64,
    /// The nanoseconds of that time.
    pub nanos: u32,
    /// The length in bytes.
    pub size: u64,
}

/// The model of the rules.
#[verifier::ext_equal]
pub struct Rules {
    pub source_root: Seq<u8>,
    pub case_sensitive: bool,
    pub io_root: Option<Seq<u8>>,
    pub lists: Lists,
    pub moves: Seq<Move>,
    pub stamp: Stamp,
    pub known: Set<(Seq<char>, Seq<char>)>,
    pub drops: Seq<DropAt>,
    pub children: ChildConfigs,
}

impl Rules {
    /// The source root as it is matched.
    pub open spec fn match_root(self) -> Seq<u8> {
        anchor(self.source_root, self.case_sensitive)
    }

    /// A path below the source root as it is matched.
    pub open spec fn match_path(self, rel: Seq<u8>) -> Seq<u8> {
        joined(self.match_root(), anchor(rel, self.case_sensitive))
    }

    /// The original name of each renamed directory.
    pub open spec fn aliases(self) -> Aliases {
        table(self.moves)
    }

    /// Whether the last component of a path is a given name.
    pub open spec fn is_named(self, rel: Seq<u8>, name: Seq<char>) -> bool {
        match file_name(rel) {
            Some(n) => if self.case_sensitive {
                n == encode_utf8(name)
            } else {
                lower_form(text_form(n)) == name
            },
            None => false,
        }
    }

    /// Whether a gitignore file ignores what lies below the source root at `was`.
    pub open spec fn ignored_as(self, was: Seq<u8>, is_dir: bool) -> bool {
        any_ignores(self.lists.gitignore, joined(self.match_root(), was), is_dir)
    }

    /// Whether a gitignore file ignores a path under a name that the path stands for.
    pub open spec fn ignored_by_alias(self, path: Seq<u8>, is_dir: bool) -> bool {
        strip(path, self.match_root()) matches Some(rel) && exists|was: Seq<u8>|
            stands_for(self.moves, rel, was) && #[trigger] self.ignored_as(was, is_dir)
    }

    /// Whether a gitignore file ignores a path, under its name or under one that it stands
    /// for.
    pub open spec fn gitignored(self, path: Seq<u8>, is_dir: bool) -> bool {
        any_ignores(self.lists.gitignore, path, is_dir) || self.ignored_by_alias(path, is_dir)
    }

    /// What may be done with a path below the source root.
    pub open spec fn class_of(self, rel: Seq<u8>, is_dir: bool) -> PathClass {
        let path = self.match_path(rel);
        if self.is_named(rel, ".shadowconfig"@) {
            PathClass::Hidden
        } else if any_ignores(self.lists.ignore, path, is_dir) {
            PathClass::Hidden
        } else if self.gitignored(path, is_dir) && any_ignores(self.lists.writable, path, is_dir) {
            PathClass::WritableOverlay
        } else if self.gitignored(path, is_dir) {
            PathClass::Blocked
        } else if self.is_named(rel, ".gitignore"@) {
            PathClass::GitignoreFile
        } else {
            PathClass::Passthrough
        }
    }

    /// Where a path below the source root is read and written.
    pub open spec fn io_path(self, rel: Seq<u8>) -> Seq<u8> {
        let root = match self.io_root {
            Some(r) => r,
            None => self.source_root,
        };
        joined(root, or_dot(rel))
    }
}

/// The rules of a source tree, or why there are none.
pub open spec fn loaded(
    root: Seq<u8>,
    above: Seq<Found>,
    tree: Seq<Found>,
    stamp: Stamp,
    case_sensitive: bool,
    children: ChildConfigs,
    home: Option<Seq<u8>>,
) -> Result<Rules, Failure> {
    let drops = root_drops(tree, root, home);
    let how = Reading { root, case_sensitive, children, drops };
    let start = Scan { lists: scan_ancestors(above, how), renames: Seq::<Rename>::empty() };
    match scan_tree(start, tree, how) {
        Ok(s) => Ok(
            Rules {
                source_root: root,
                case_sensitive,
                io_root: None,
                lists: s.lists,
                moves: moves_of(s.renames, case_sensitive),
                stamp,
                known: pairs_of(s.renames),
                drops,
                children,
            },
        ),
        Err(e) => Err(e),
    }
}

impl Rules {
    /// The directory below the source root that stands for a directory below `new`,
    /// which was found where `new` is read and written.
    pub open spec fn source_dir(self, new: Seq<u8>, io_dir: Seq<u8>) -> Seq<u8> {
        let rest = match strip(io_dir, self.io_path(new)) {
            Some(r) => r,
            None => Seq::<u8>::empty(),
        };
        joined(joined(self.source_root, new), rest)
    }

    /// The lists after one more rule file below `new`. A configuration counts only where
    /// those below the source root do; one that cannot be read or parsed says nothing.
    pub open spec fn with_file(self, l: Lists, new: Seq<u8>, f: Found) -> Lists {
        let dir = self.source_dir(new, f.dir);
        match rule_file_of(f.name) {
            RuleFile::Gitignore => with_gitignore(
                l,
                dir,
                f.content,
                self.drops,
                self.case_sensitive,
            ),
            RuleFile::Shadowconfig => if self.children == ChildConfigs::Compose {
                match text_of(f.content) {
                    Some(text) => match shadowconfig_of(text) {
                        Some(c) => with_config(l, dir, c, self.case_sensitive),
                        None => l,
                    },
                    None => l,
                }
            } else {
                l
            },
            RuleFile::Other => l,
        }
    }

    /// The lists after the rule files below `new`.
    pub open spec fn with_files(self, l: Lists, new: Seq<u8>, fs: Seq<Found>) -> Lists
        decreases fs.len(),
    {
        if fs.len() == 0 {
            l
        } else {
            self.with_file(self.with_files(l, new, fs.drop_last()), new, fs.last())
        }
    }

    /// The lists after a rename that this process made: the matchers below the old name
    /// go, and the rule files below the new name are read.
    pub open spec fn lists_renamed(self, old_rel: Seq<u8>, new_rel: Seq<u8>, fs: Seq<Found>) -> Lists {
        self.with_files(lists_outside(self.lists, self.match_path(old_rel)), new_rel, fs)
    }

    /// The lists after a rename that was made elsewhere: the matchers below either name
    /// go, and the rule files below the new name are read.
    pub open spec fn lists_renamed_elsewhere(
        self,
        old_rel: Seq<u8>,
        new_rel: Seq<u8>,
        fs: Seq<Found>,
    ) -> Lists {
        self.with_files(
            lists_outside(
                lists_outside(self.lists, self.match_path(old_rel)),
                self.match_path(new_rel),
            ),
            new_rel,
            fs,
        )
    }

    /// The renames after one more.
    pub open spec fn moves_renamed(self, old_rel: Seq<u8>, new_rel: Seq<u8>) -> Seq<Move> {
        self.moves.push(
            Move {
                from: anchor(old_rel, self.case_sensitive),
                to: anchor(new_rel, self.case_sensitive),
            },
        )
    }

    /// The rules after the configuration at the source root was found to have changed.
    /// Without a configuration no directory counts as renamed. One that cannot be parsed
    /// changes nothing.
    pub open spec fn config_changed(self, stamp: Stamp, content: Option<Seq<u8>>) -> Rules {
        match text_of(content) {
            Some(text) => match shadowconfig_of(text) {
                Some(c) => Rules {
                    stamp,
                    moves: moves_of(c.folder_renames, self.case_sensitive),
                    known: pairs_of(c.folder_renames),
                    ..self
                },
                None => Rules { stamp, ..self },
            },
            None => Rules {
                stamp,
                moves: Seq::<Move>::empty(),
                known: Set::empty(),
                ..self
            },
        }
    }

    /// The renames that a changed configuration records and that were not known.
    pub open spec fn news(self, stamp: Stamp, content: Option<Seq<u8>>) -> Seq<
        (Seq<char>, Seq<char>),
    > {
        if stamp == self.stamp {
            Seq::empty()
        } else {
            match text_of(content) {
                Some(text) => match shadowconfig_of(text) {
                    Some(c) => unseen(c.folder_renames, self.known),
                    None => Seq::empty(),
                },
                None => Seq::empty(),
            }
        }
    }
}

/// The renames that are not known, each once, oldest first.
pub open spec fn unseen(rs: Seq<Rename>, known: Set<(Seq<char>, Seq<char>)>) -> Seq<
    (Seq<char>, Seq<char>),
>
    decreases rs.len(),
{
    if rs.len() == 0 {
        Seq::empty()
    } else {
        let before = unseen(rs.drop_last(), known);
        let p = names(rs.last());
        if known.contains(p) || before.contains(p) {
            before
        } else {
            before.push(p)
        }
    }
}

/// The configuration in a file; an empty file holds one that says nothing.
pub open spec fn config_in(text: Seq<char>) -> Option<Config> {
    if trimmed(text).len() == 0 {
        Some(empty_config())
    } else {
        shadowconfig_of(text)
    }
}

/// A configuration with one more recorded rename.
pub open spec fn with_rename(c: Config, r: Rename) -> Config {
    Config { folder_renames: c.folder_renames.push(r), ..c }
}

/// The record of a rename.
pub open spec fn rename_record(old_rel: Seq<u8>, new_rel: Seq<u8>, at: Seq<char>) -> Rename {
    Rename { from: text_form(old_rel), to: text_form(new_rel), at }
}

/// Why a rename cannot be recorded.
#[derive(Debug, Clone, Copy, PartialEq, Eq, Structural)]
pub enum RecordError {
    /// The configuration at the source root cannot be read as text.
    Reading,
    /// The configuration at the source root cannot be parsed.
    Parsing(ConfigError),
}

/// Rules that were loaded from a source tree.
pub struct RuleSet {
    source_root: FsPath,
    match_root: FsPath,
    case_sensitive: bool,
    io_root: Option<FsPath>,
    lists: MatcherLists,
    moves: Vec<DirMove>,
    aliases: AliasMap,
    stamp: Stamp,
    known: Vec<(String, String)>,
    drops: Vec<DropRule>,
    children: ChildConfigs,
}

/// The pairs that a list holds.
pub open spec fn pair_set(v: Seq<(String, String)>) -> Set<(Seq<char>, Seq<char>)> {
    Set::new(|p: (Seq<char>, Seq<char>)| exists|i: int| 0 <= i < v.len() && pair_at(v, i) == p)
}

/// Pair `i` of a list.
pub open spec fn pair_at(v: Seq<(String, String)>, i: int) -> (Seq<char>, Seq<char>) {
    (v[i].0@, v[i].1@)
}

impl View for RuleSet {
    type V = Rules;

    closed spec fn view(&self) -> Rules {
        Rules {
            source_root: self.source_root@,
            case_sensitive: self.case_sensitive,
            io_root: path_view(self.io_root),
            lists: self.lists@,
            moves: move_list(self.moves@),
            stamp: self.stamp,
            known: pair_set(self.known@),
            drops: drop_rules(self.drops@),
            children: self.children,
        }
    }
}

impl RuleSet {
    /// The source root is absolute, every matcher is anchored in an absolute directory,
    /// and the table of original names is that of the renames.
    pub closed spec fn wf(&self) -> bool {
        &&& is_absolute(self.source_root@)
        &&& self.match_root@ == anchor(self.source_root@, self.case_sensitive)
        &&& is_absolute(self.match_root@)
        &&& self.lists.wf()
        &&& self.aliases.wf()
        &&& self.aliases@ == table(move_list(self.moves@))
    }

    /// A path below the source root as it is matched.
    fn match_path(&self, rel: &FsPath) -> (p: FsPath)
        requires
            self.wf(),
        ensures
            p@ == self@.match_path(rel@),
    {
        self.match_root.join(&anchored(rel, self.case_sensitive))
    }

    /// Whether the last component of a path is a given name. Where case does not count,
    /// an ASCII letter counts in either case.
    fn is_named(&self, rel: &FsPath, name: &str) -> (yes: bool)
        ensures
            yes == self@.is_named(rel@, name@),
            !self@.case_sensitive ==> forall|t: Seq<char>| #[trigger]
                is_ascii_text(t) && file_name(rel@) == Some(encode_utf8(t)) ==> yes == (
                ascii_lowered(t) == name@),
    {
        match rel.file_name() {
            Some(n) => if self.case_sensitive {
                bytes_eq(&n, name.as_bytes())
            } else {
                let text = to_text_lossy(&n);
                let lower = to_lower(&text);
                proof {
                    assert forall|t: Seq<char>| #[trigger]
                        is_ascii_text(t) && file_name(rel@) == Some(encode_utf8(t)) implies lower@
                        == ascii_lowered(t) by {
                        vstd::utf8::encode_utf8_valid_utf8(t);
                        vstd::utf8::encode_utf8_decode_utf8(t);
                        assert(text@ == t);
                    }
                }
                lower == name.to_owned()
            },
            None => false,
        }
    }

    /// Whether a gitignore file ignores a path under a name that the path stands for.
    fn is_gitignored_via_alias(&self, path: &FsPath, is_dir: bool) -> (yes: bool)
        requires
            self.wf(),
        ensures
            yes == self@.ignored_by_alias(path@, is_dir),
    {
        let rel = match path.strip_prefix(&self.match_root) {
            Some(r) => r,
            None => {
                return false;
            },
        };
        let names = older_names(&self.moves, &self.aliases, &rel);
        let mut i: usize = 0;
        while i < names.len()
            invariant
                i <= names.len(),
                self.wf(),
                strip(path@, self@.match_root()) == Some(rel@),
                forall|was: Seq<u8>| #[trigger]
                    paths(names@).contains(was) <==> stands_for(self@.moves, rel@, was),
                forall|j: int|
                    0 <= j < i ==> !self@.ignored_as(#[trigger] paths(names@)[j], is_dir),
            decreases names.len() - i,
        {
            if any_matches(&self.lists.gitignore, &self.match_root.join(&names[i]), is_dir) {
                let ghost was = paths(names@)[i as int];
                assert(paths(names@).contains(was));
                assert(self@.ignored_as(was, is_dir));
                return true;
            }
            i += 1;
        }
        proof {
            if self@.ignored_by_alias(path@, is_dir) {
                let was = choose|was: Seq<u8>|
                    stands_for(self@.moves, rel@, was) && #[trigger] self@.ignored_as(
                        was,
                        is_dir,
                    );
                assert(paths(names@).contains(was));
                let j = choose|j: int| 0 <= j < names.len() && paths(names@)[j] == was;
                assert(self@.ignored_as(paths(names@)[j], is_dir));
            }
        }
        false
    }

    /// What may be done with a path below the source root:
    ///
    /// 1. a `.shadowconfig` is hidden;
    /// 2. what an `[ignore]` section matches is hidden;
    /// 3. what is gitignored and a `[writable]` section matches lives in the overlay;
    /// 4. what is gitignored is blocked;
    /// 5. a `.gitignore` can be read;
    /// 6. anything else passes through.
    ///
    /// Where case does not count, `.shadowconfig` and `.gitignore` are known in whatever
    /// case they are written.
    pub fn classify(&self, rel: &FsPath, is_dir: bool) -> (class: PathClass)
        requires
            self.wf(),
        ensures
            class == self@.class_of(rel@, is_dir),
            !self@.case_sensitive ==> forall|t: Seq<char>| #[trigger]
                is_ascii_text(t) && file_name(rel@) == Some(encode_utf8(t)) ==> {
                    &&& ascii_lowered(t) == ".shadowconfig"@ ==> class == PathClass::Hidden
                    &&& ascii_lowered(t) == ".gitignore"@ ==> class != PathClass::Passthrough
                },
    {
        if self.is_named(rel, ".shadowconfig") {
            return PathClass::Hidden;
        }
        let path = self.match_path(rel);
        if any_matches(&self.lists.ignore, &path, is_dir) {
            return PathClass::Hidden;
        }
        let gitignored = any_matches(&self.lists.gitignore, &path, is_dir)
            || self.is_gitignored_via_alias(&path, is_dir);
        if gitignored && any_matches(&self.lists.writable, &path, is_dir) {
            return PathClass::WritableOverlay;
        }
        if gitignored {
            return PathClass::Blocked;
        }
        if self.is_named(rel, ".gitignore") {
            return PathClass::GitignoreFile;
        }
        PathClass::Passthrough
    }
}

/// Copies of the pairs of recorded renames.
fn pairs(rs: &Vec<FolderRename>) -> (v: Vec<(String, String)>)
    ensures
        pair_set(v@) == pairs_of(renames(rs@)),
{
    let mut v: Vec<(String, String)> = Vec::new();
    let ghost all = renames(rs@);
    let mut i: usize = 0;
    while i < rs.len()
        invariant
            i <= rs.len(),
            all == renames(rs@),
            v.len() == i,
            forall|j: int| 0 <= j < i ==> #[trigger] pair_at(v@, j) == names(all[j]),
        decreases rs.len() - i,
    {
        let ghost was = v@;
        v.push((rs[i].from.clone(), rs[i].to.clone()));
        assert forall|j: int| 0 <= j < i + 1 implies #[trigger] pair_at(v@, j) == names(all[j]) by {
            if j < i {
                assert(pair_at(was, j) == pair_at(v@, j));
            }
        }
        i += 1;
    }
    assert forall|p: (Seq<char>, Seq<char>)| pair_set(v@).contains(p) <==> pairs_of(all).contains(
        p,
    ) by {
        if pair_set(v@).contains(p) {
            let j = choose|j: int| 0 <= j < v.len() && pair_at(v@, j) == p;
            assert(names(all[j]) == p);
        }
        if pairs_of(all).contains(p) {
            let j = choose|j: int| 0 <= j < all.len() && names(all[j]) == p;
            assert(pair_at(v@, j) == p);
        }
    }
    assert(pair_set(v@) =~= pairs_of(all));
    v
}

/// Whether a list holds a pair.
fn has_pair(v: &Vec<(String, String)>, from: &String, to: &String) -> (yes: bool)
    ensures
        yes == pair_set(v@).contains((from@, to@)),
{
    let mut i: usize = 0;
    while i < v.len()
        invariant
            i <= v.len(),
            forall|j: int| 0 <= j < i ==> #[trigger] pair_at(v@, j) != (from@, to@),
        decreases v.len() - i,
    {
        if v[i].0 == *from && v[i].1 == *to {
            assert(pair_at(v@, i as int) == (from@, to@));
            return true;
        }
        i += 1;
    }
    false
}

/// The pairs of a list, in order.
pub open spec fn pair_list(v: Seq<(String, String)>) -> Seq<(Seq<char>, Seq<char>)> {
    Seq::new(v.len(), |i: int| pair_at(v, i))
}

/// The renames that are not known, each once, oldest first.
fn find_unseen(rs: &Vec<FolderRename>, known: &Vec<(String, String)>) -> (v: Vec<(String, String)>)
    ensures
        pair_list(v@) == unseen(renames(rs@), pair_set(known@)),
{
    let mut v: Vec<(String, String)> = Vec::new();
    let ghost all = renames(rs@);
    let mut i: usize = 0;
    assert(pair_list(v@) =~= unseen(all.take(0), pair_set(known@)));
    while i < rs.len()
        invariant
            i <= rs.len(),
            all == renames(rs@),
            pair_list(v@) == unseen(all.take(i as int), pair_set(known@)),
        decreases rs.len() - i,
    {
        assert(all.take(i + 1).drop_last() =~= all.take(i as int));
        let ghost before = pair_list(v@);
        let ghost p = names(all[i as int]);
        proof {
            if pair_set(v@).contains(p) {
                let j = choose|j: int| 0 <= j < v.len() && pair_at(v@, j) == p;
                assert(before[j] == p);
            }
            if before.contains(p) {
                let j = choose|j: int| 0 <= j < before.len() && before[j] == p;
                assert(pair_at(v@, j) == p);
            }
        }
        if !has_pair(known, &rs[i].from, &rs[i].to) && !has_pair(&v, &rs[i].from, &rs[i].to) {
            v.push((rs[i].from.clone(), rs[i].to.clone()));
            assert(pair_list(v@) =~= before.push(p));
        }
        i += 1;
    }
    assert(all.take(all.len() as int) =~= all);
    v
}

impl RuleSet {
    /// Loads the rules of a source tree from the gitignore files above it, nearest
    /// first, and the files in it, in the order in which they were found. A tree whose
    /// only configuration is one that was written can be loaded, and has the renames and
    /// the patterns to take out that were written.
    pub fn load(
        source_root: &FsPath,
        above: &Vec<FoundFile>,
        tree: &Vec<FoundFile>,
        stamp: Stamp,
        case_sensitive: bool,
        children: ChildConfigs,
        home: &Option<FsPath>,
    ) -> (out: Result<RuleSet, LoadError>)
        requires
            is_absolute(source_root@),
            absolute_dirs(above@),
            absolute_dirs(tree@),
        ensures
            match out {
                Ok(r) => r.wf() && loaded(
                    source_root@,
                    found_files(above@),
                    found_files(tree@),
                    stamp,
                    case_sensitive,
                    children,
                    path_view(*home),
                ) == Ok::<Rules, Failure>(r@),
                Err(e) => loaded(
                    source_root@,
                    found_files(above@),
                    found_files(tree@),
                    stamp,
                    case_sensitive,
                    children,
                    path_view(*home),
                ) == Err::<Rules, Failure>(e@),
            },
            forall|c: Config| #[trigger]
                holds_config(found_files(tree@), source_root@, c) ==> {
                    &&& out is Ok
                    &&& out->Ok_0@.moves == moves_of(c.folder_renames, case_sensitive)
                    &&& out->Ok_0@.known == pairs_of(c.folder_renames)
                    &&& out->Ok_0@.drops == drops_at(
                        c.gitignore_drop,
                        source_root@,
                        path_view(*home),
                    )
                },
    {
        let drops = find_root_drops(tree, source_root, home);
        let how = ReadRules { root: source_root, case_sensitive, children, drops: &drops };
        let mut scanner = Scanner { lists: how.ancestors(above), renames: Vec::new() };
        assert(renames(scanner.renames@) =~= Seq::<Rename>::empty());
        proof {
            let all = found_files(tree@);
            assert forall|c: Config| #[trigger]
                holds_config(all, source_root@, c) implies root_config(
                all,
                source_root@,
            ) == Some(c) && (scan_tree(scanner@, all, how.model()) matches Ok(s) && s.renames
                == c.folder_renames) by {
                lemma_load_saved(scanner@, all, how.model(), c);
            }
        }
        match how.tree(&mut scanner, tree) {
            Ok(_) => {},
            Err(e) => {
                return Err(e);
            },
        }
        let moves = build_moves(&scanner.renames, case_sensitive);
        let aliases = build_alias_map(&scanner.renames, case_sensitive);
        let known = pairs(&scanner.renames);
        Ok(
            RuleSet {
                source_root: source_root.clone(),
                match_root: anchored(source_root, case_sensitive),
                case_sensitive,
                io_root: None,
                lists: scanner.lists,
                moves,
                aliases,
                stamp,
                known,
                drops,
                children,
            },
        )
    }

    /// The table of renamed directories.
    pub fn rename_aliases(&self) -> (m: &AliasMap)
        requires
            self.wf(),
        ensures
            m.wf(),
            m@ == self@.aliases(),
    {
        &self.aliases
    }

    /// Reads and writes the source tree by way of another path.
    pub fn set_io_root(&mut self, root: FsPath)
        requires
            old(self).wf(),
        ensures
            final(self).wf(),
            final(self)@ == (Rules { io_root: Some(root@), ..old(self)@ }),
    {
        self.io_root = Some(root);
    }

    /// Where a path below the source root is read and written.
    pub fn io_path(&self, rel: &FsPath) -> (p: FsPath)
        ensures
            p@ == self@.io_path(rel@),
    {
        let root = match &self.io_root {
            Some(r) => r,
            None => &self.source_root,
        };
        root.join(&rel.or_dot())
    }

    /// Reads the rule files below `new`, each of which was found where `new` is read and
    /// written.
    #[verifier::spinoff_prover]
    fn read_files(&mut self, new: &FsPath, found: &Vec<FoundFile>)
        requires
            old(self).wf(),
        ensures
            final(self).wf(),
            final(self)@ == (Rules {
                lists: old(self)@.with_files(old(self)@.lists, new@, found_files(found@)),
                ..old(self)@
            }),
    {
        let ghost then = self@;
        let ghost all = found_files(found@);
        let new_io = self.io_path(new);
        let new_src = self.source_root.join(new);
        let mut i: usize = 0;
        while i < found.len()
            invariant
                i <= found.len(),
                all == found_files(found@),
                new_io@ == then.io_path(new@),
                new_src@ == joined(then.source_root, new@),
                is_absolute(new_src@),
                self.wf(),
                self@ == (Rules {
                    lists: then.with_files(then.lists, new@, all.take(i as int)),
                    ..then
                }),
            decreases found.len() - i,
        {
            let f = &found[i];
            assert(all.take(i + 1).last() == f@);
            assert(all.take(i + 1).drop_last() =~= all.take(i as int));
            let rest = match f.dir.strip_prefix(&new_io) {
                Some(r) => r,
                None => FsPath::new(),
            };
            let dir = new_src.join(&rest);
            assert(dir@ == then.source_dir(new@, f.dir@));
            match rule_file(&f.name) {
                RuleFile::Gitignore => {
                    self.lists.add_gitignore(&dir, &f.content, &self.drops, self.case_sensitive);
                },
                RuleFile::Shadowconfig => {
                    if self.children == ChildConfigs::Compose {
                        if let Some(text) = file_text(&f.content) {
                            if let Ok(config) = parse_shadowconfig(&text) {
                                self.lists.add_config(&dir, &config, self.case_sensitive);
                            }
                        }
                    }
                },
                RuleFile::Other => {},
            }
            i += 1;
        }
        assert(all.take(all.len() as int) =~= all);
    }

    /// Follows a rename that this process made.
    fn refresh_child_matchers(
        &mut self,
        old_rel: &FsPath,
        new_rel: &FsPath,
        found: &Vec<FoundFile>,
    )
        requires
            old(self).wf(),
        ensures
            final(self).wf(),
            final(self)@ == (Rules {
                lists: old(self)@.lists_renamed(old_rel@, new_rel@, found_files(found@)),
                ..old(self)@
            }),
    {
        let ghost then = self@;
        let old_path = self.match_path(old_rel);
        self.lists.remove_under(&old_path);
        let ghost between = self@;
        self.read_files(new_rel, found);
        proof {
            lemma_with_files_same(then, between, between.lists, new_rel@, found_files(found@));
        }
    }

    /// Follows a rename that was made elsewhere. The files are those found where `new`
    /// is read and written.
    pub fn refresh_child_matchers_for_external(
        &mut self,
        old_rel: &FsPath,
        new_rel: &FsPath,
        found: &Vec<FoundFile>,
    )
        requires
            old(self).wf(),
        ensures
            final(self).wf(),
            final(self)@ == (Rules {
                lists: old(self)@.lists_renamed_elsewhere(old_rel@, new_rel@, found_files(found@)),
                ..old(self)@
            }),
    {
        let ghost then = self@;
        let old_path = self.match_path(old_rel);
        let new_path = self.match_path(new_rel);
        self.lists.remove_under(&old_path);
        self.lists.remove_under(&new_path);
        let ghost between = self@;
        self.read_files(new_rel, found);
        proof {
            lemma_with_files_same(then, between, between.lists, new_rel@, found_files(found@));
        }
    }

    /// Takes note of a rename of a directory.
    fn add_rename_alias(&mut self, old_rel: &FsPath, new_rel: &FsPath)
        requires
            old(self).wf(),
        ensures
            final(self).wf(),
            final(self)@ == (Rules {
                moves: old(self)@.moves_renamed(old_rel@, new_rel@),
                ..old(self)@
            }),
    {
        let from = anchored(old_rel, self.case_sensitive);
        let to = anchored(new_rel, self.case_sensitive);
        record_alias(&mut self.aliases, &from, &to);
        let ghost was = move_list(self.moves@);
        let made = DirMove { from, to };
        self.moves.push(made);
        proof {
            assert(move_list(self.moves@) =~= was.push(made@));
            assert(was.push(made@).drop_last() =~= was);
        }
    }

    /// The text of the configuration at the source root with one more recorded rename.
    fn record_rename(
        old_rel: &FsPath,
        new_rel: &FsPath,
        content: &Option<Vec<u8>>,
        at: &str,
    ) -> (out: Result<String, RecordError>)
        ensures
            match out {
                Ok(text) => text_of(content_view(*content)) matches Some(t) && config_in(
                    t,
                ) matches Some(c) && text@ == shadowconfig_text(
                    with_rename(c, rename_record(old_rel@, new_rel@, at@)),
                ),
                Err(RecordError::Reading) => text_of(content_view(*content)) is None,
                Err(RecordError::Parsing(e)) => text_of(content_view(*content)) matches Some(t)
                    && config_in(t) is None && e == config_fault(t),
            },
    {
        let text = match file_text(content) {
            Some(t) => t,
            None => {
                return Err(RecordError::Reading);
            },
        };
        let mut config = if trim(&text).as_str().is_empty() {
            ShadowConfig::new()
        } else {
            match parse_shadowconfig(&text) {
                Ok(c) => c,
                Err(e) => {
                    return Err(RecordError::Parsing(e));
                },
            }
        };
        let ghost before = config@;
        config.folder_renames.push(
            FolderRename {
                from: to_text_lossy(old_rel.as_bytes()),
                to: to_text_lossy(new_rel.as_bytes()),
                at: at.to_owned(),
            },
        );
        assert(config@ =~= with_rename(before, rename_record(old_rel@, new_rel@, at@)));
        Ok(serialize_shadowconfig(&config))
    }

    /// Follows a rename of a directory that this process made. The files are those found
    /// where the new name is read and written; `content` is what the configuration at
    /// the source root holds. Gives the text to write there, and follows the rename even
    /// where there is none.
    pub fn handle_directory_rename(
        &mut self,
        old_rel: &FsPath,
        new_rel: &FsPath,
        found: &Vec<FoundFile>,
        content: &Option<Vec<u8>>,
        at: &str,
    ) -> (out: Result<String, RecordError>)
        requires
            old(self).wf(),
        ensures
            final(self).wf(),
            final(self)@ == (Rules {
                lists: old(self)@.lists_renamed(old_rel@, new_rel@, found_files(found@)),
                moves: old(self)@.moves_renamed(old_rel@, new_rel@),
                ..old(self)@
            }),
            match out {
                Ok(text) => text_of(content_view(*content)) matches Some(t) && config_in(
                    t,
                ) matches Some(c) && text@ == shadowconfig_text(
                    with_rename(c, rename_record(old_rel@, new_rel@, at@)),
                ),
                Err(RecordError::Reading) => text_of(content_view(*content)) is None,
                Err(RecordError::Parsing(e)) => text_of(content_view(*content)) matches Some(t)
                    && config_in(t) is None && e == config_fault(t),
            },
    {
        self.refresh_child_matchers(old_rel, new_rel, found);
        self.add_rename_alias(old_rel, new_rel);
        Self::record_rename(old_rel, new_rel, content, at)
    }

    /// Takes note that the record of a rename was written, so that it is no news later.
    pub fn rename_recorded(&mut self, old_rel: &FsPath, new_rel: &FsPath, stamp: Stamp)
        requires
            old(self).wf(),
        ensures
            final(self).wf(),
            final(self)@ == (Rules {
                stamp,
                known: old(self)@.known.insert((text_form(old_rel@), text_form(new_rel@))),
                ..old(self)@
            }),
    {
        let ghost was = self.known@;
        let from = to_text_lossy(old_rel.as_bytes());
        let to = to_text_lossy(new_rel.as_bytes());
        let ghost p = (from@, to@);
        self.known.push((from, to));
        self.stamp = stamp;
        proof {
            assert forall|q: (Seq<char>, Seq<char>)| pair_set(self.known@).contains(q)
                <==> pair_set(was).insert(p).contains(q) by {
                if pair_set(was).contains(q) {
                    let j = choose|j: int| 0 <= j < was.len() && pair_at(was, j) == q;
                    assert(pair_at(self.known@, j) == q);
                }
                assert(pair_at(self.known@, was.len() as int) == p);
                if pair_set(self.known@).contains(q) {
                    let j = choose|j: int|
                        0 <= j < self.known.len() && pair_at(self.known@, j) == q;
                    if j < was.len() {
                        assert(pair_at(was, j) == q);
                    }
                }
            }
            assert(pair_set(self.known@) =~= pair_set(was).insert(p));
        }
    }

    /// Whether the configuration at the source root has changed since it was last read.
    pub fn shadowconfig_changed(&self, now: Stamp) -> (yes: bool)
        ensures
            yes == (now != self@.stamp),
    {
        !(now == self.stamp)
    }

    /// Takes over what the configuration at the source root says of renames, where it
    /// has changed; what was written for a configuration is taken over as it was meant.
    /// Gives the renames that were not known: each is to be followed with
    /// `refresh_child_matchers_for_external`.
    pub fn check_shadowconfig_changes(
        &mut self,
        now: Stamp,
        content: &Option<Vec<u8>>,
    ) -> (news: Vec<(String, String)>)
        requires
            old(self).wf(),
        ensures
            final(self).wf(),
            final(self)@ == (if now == old(self)@.stamp {
                old(self)@
            } else {
                old(self)@.config_changed(now, content_view(*content))
            }),
            pair_list(news@) == old(self)@.news(now, content_view(*content)),
            now != old(self)@.stamp ==> forall|c: Config|
                text_of(content_view(*content)) == Some(#[trigger] shadowconfig_text(c))
                    ==> final(self)@.moves == moves_of(
                    c.folder_renames,
                    old(self)@.case_sensitive,
                ) && final(self)@.known == pairs_of(c.folder_renames),
    {
        let none: Vec<(String, String)> = Vec::new();
        assert(pair_list(none@) =~= Seq::<(Seq<char>, Seq<char>)>::empty());
        if !self.shadowconfig_changed(now) {
            return none;
        }
        self.stamp = now;
        let text = match file_text(content) {
            Some(t) => t,
            None => {
                self.moves = Vec::new();
                self.aliases = AliasMap::new();
                assert(move_list(self.moves@) =~= Seq::<Move>::empty());
                self.known = Vec::new();
                assert(pair_set(self.known@) =~= Set::empty());
                return none;
            },
        };
        let config = match parse_shadowconfig(&text) {
            Ok(c) => c,
            Err(_) => {
                return none;
            },
        };
        self.moves = build_moves(&config.folder_renames, self.case_sensitive);
        self.aliases = build_alias_map(&config.folder_renames, self.case_sensitive);
        let news = find_unseen(&config.folder_renames, &self.known);
        self.known = pairs(&config.folder_renames);
        news
    }
}

pub(crate) proof fn lemma_with_files_same(a: Rules, b: Rules, l: Lists, new: Seq<u8>, fs: Seq<Found>)
    requires
        a.source_root == b.source_root,
        a.io_root == b.io_root,
        a.drops == b.drops,
        a.case_sensitive == b.case_sensitive,
        a.children == b.children,
    ensures
        a.with_files(l, new, fs) == b.with_files(l, new, fs),
    decreases fs.len(),
{
    if fs.len() > 0 {
        lemma_with_files_same(a, b, l, new, fs.drop_last());
    }
}

} // verus!
