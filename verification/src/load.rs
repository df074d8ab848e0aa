//! Loading: from the rule files of a source tree to rules, or to what is wrong with them.

use crate::config::{
    parse_shadowconfig, renames, shadowconfig_of, shadowconfig_text, Config,
    FolderRename, Rename,
};
use crate::found::{
    drop_rules, drops_at, file_text, found_files, path_view, resolve_drops, rule_file, rule_file_of,
    shadowconfig_in, shadowconfig_name, text_of, DropAt, DropRule, Found, FoundFile, RuleFile,
};
use crate::lists::{no_lists, with_config, with_gitignore, Lists, MatcherLists};
use crate::path::{components, is_absolute, joined, kept, parent, paths, pieces, FsPath};
use crate::path_laws::law_parent_shorter;
use crate::text::to_text_lossy;
use vstd::prelude::*;
use vstd::string::StringExecFns;

verus! {

/// What to do with a `.shadowconfig` that is not at the source root.
#[derive(Debug, Clone, Copy, PartialEq, Eq, Structural)]
pub enum ChildConfigs {
    /// Its patterns count from its own directory.
    Compose,
    /// It is an error.
    Reject,
    /// It is passed over.
    Skip,
}

/// Why rules cannot be loaded. Each case names the file.
#[derive(Debug)]
pub enum LoadError {
    /// A configuration cannot be read as text.
    Reading(FsPath),
    /// A configuration cannot be parsed.
    Parsing(FsPath),
    /// A configuration records renames, but is not the one at the source root, which is
    /// named second.
    NestedRenames(FsPath, FsPath),
    /// A configuration is not at the source root.
    Nested(FsPath),
}

/// The model of why rules cannot be loaded.
pub enum Failure {
    Reading(Seq<u8>),
    Parsing(Seq<u8>),
    NestedRenames(Seq<u8>, Seq<u8>),
    Nested(Seq<u8>),
}

impl View for LoadError {
    type V = Failure;

    open spec fn view(&self) -> Failure {
        match self {
            LoadError::Reading(p) => Failure::Reading(p@),
            LoadError::Parsing(p) => Failure::Parsing(p@),
            LoadError::NestedRenames(p, q) => Failure::NestedRenames(p@, q@),
            LoadError::Nested(p) => Failure::Nested(p@),
        }
    }
}

/// The message for a failure to load rules.
pub open spec fn failure_text(f: Failure) -> Seq<char> {
    match f {
        Failure::Reading(p) => "reading "@ + crate::text::text_form(p),
        Failure::Parsing(p) => "parsing "@ + crate::text::text_form(p),
        Failure::NestedRenames(p, q) => crate::text::text_form(p)
            + " contains folder_renames, which is only allowed in the root .shadowconfig. Please move these entries to "@
            + crate::text::text_form(q) + " or remove them."@,
        Failure::Nested(p) => crate::text::text_form(p)
            + " is not at the source root: only the root-level .shadowconfig is supported."@,
    }
}

impl LoadError {
    /// The message for a failure to load rules.
    pub fn describe(&self) -> (text: String)
        ensures
            text@ == failure_text(self@),
    {
        let mut out = String::new();
        proof {
            reveal_strlit("");
        }
        match self {
            LoadError::Reading(p) => {
                out.append("reading ");
                out.append(&to_text_lossy(p.as_bytes()));
            },
            LoadError::Parsing(p) => {
                out.append("parsing ");
                out.append(&to_text_lossy(p.as_bytes()));
            },
            LoadError::NestedRenames(p, q) => {
                out.append(&to_text_lossy(p.as_bytes()));
                out.append(
                    " contains folder_renames, which is only allowed in the root .shadowconfig. Please move these entries to ",
                );
                out.append(&to_text_lossy(q.as_bytes()));
                out.append(" or remove them.");
            },
            LoadError::Nested(p) => {
                out.append(&to_text_lossy(p.as_bytes()));
                out.append(
                    " is not at the source root: only the root-level .shadowconfig is supported.",
                );
            },
        }
        assert(out@ =~= failure_text(self@));
        out
    }
}

/// The renames that were recorded, whenever they were.
pub open spec fn pairs_of(rs: Seq<Rename>) -> Set<(Seq<char>, Seq<char>)> {
    Set::new(|p: (Seq<char>, Seq<char>)| exists|i: int| 0 <= i < rs.len() && names(rs[i]) == p)
}

/// Old and new name of a rename.
pub open spec fn names(r: Rename) -> (Seq<char>, Seq<char>) {
    (r.from, r.to)
}

/// What rule files have said so far.
#[verifier::ext_equal]
pub struct Scan {
    pub lists: Lists,
    pub renames: Seq<Rename>,
}

/// How rule files are read.
pub struct Reading {
    pub root: Seq<u8>,
    pub case_sensitive: bool,
    pub children: ChildConfigs,
    pub drops: Seq<DropAt>,
}

/// What one more configuration says.
pub open spec fn config_step(s: Scan, f: Found, how: Reading) -> Result<Scan, Failure> {
    let path = joined(f.dir, shadowconfig_name());
    let is_root = components(f.dir) == components(how.root);
    if !is_root && how.children == ChildConfigs::Reject {
        Err(Failure::Nested(path))
    } else if !is_root && how.children == ChildConfigs::Skip {
        Ok(s)
    } else {
        match text_of(f.content) {
            None => Err(Failure::Reading(path)),
            Some(text) => match shadowconfig_of(text) {
                None => Err(Failure::Parsing(path)),
                Some(c) => if !is_root && c.folder_renames.len() > 0 {
                    Err(Failure::NestedRenames(path, joined(how.root, shadowconfig_name())))
                } else {
                    Ok(
                        Scan {
                            lists: with_config(s.lists, f.dir, c, how.case_sensitive),
                            renames: if is_root {
                                c.folder_renames
                            } else {
                                s.renames
                            },
                        },
                    )
                },
            },
        }
    }
}

/// What one more file says.
pub open spec fn scan_step(s: Scan, f: Found, how: Reading) -> Result<Scan, Failure> {
    match rule_file_of(f.name) {
        RuleFile::Gitignore => Ok(
            Scan {
                lists: with_gitignore(s.lists, f.dir, f.content, how.drops, how.case_sensitive),
                ..s
            },
        ),
        RuleFile::Shadowconfig => config_step(s, f, how),
        RuleFile::Other => Ok(s),
    }
}

/// What the files of a source tree say, in order. The first failure counts.
pub open spec fn scan_tree(start: Scan, fs: Seq<Found>, how: Reading) -> Result<Scan, Failure>
    decreases fs.len(),
{
    if fs.len() == 0 {
        Ok(start)
    } else {
        match scan_tree(start, fs.drop_last(), how) {
            Ok(s) => scan_step(s, fs.last(), how),
            Err(e) => Err(e),
        }
    }
}

/// What the gitignore files above the source root say, in order. Any other file there
/// says nothing.
pub open spec fn scan_ancestors(fs: Seq<Found>, how: Reading) -> Lists
    decreases fs.len(),
{
    if fs.len() == 0 {
        no_lists()
    } else {
        let before = scan_ancestors(fs.drop_last(), how);
        if rule_file_of(fs.last().name) == RuleFile::Gitignore {
            with_gitignore(
                before,
                fs.last().dir,
                fs.last().content,
                how.drops,
                how.case_sensitive,
            )
        } else {
            before
        }
    }
}

/// Whether a file is the configuration at the source root.
pub open spec fn is_root_config(f: Found, root: Seq<u8>) -> bool {
    rule_file_of(f.name) == RuleFile::Shadowconfig && components(f.dir) == components(root)
}

/// The text of the configuration at the source root among found files; of the last one,
/// if there are several.
pub open spec fn root_text(fs: Seq<Found>, root: Seq<u8>) -> Option<Seq<char>>
    decreases fs.len(),
{
    if fs.len() == 0 {
        None
    } else if is_root_config(fs.last(), root) {
        text_of(fs.last().content)
    } else {
        root_text(fs.drop_last(), root)
    }
}

/// The configuration at the source root among found files; none where it cannot be
/// parsed.
pub open spec fn root_config(fs: Seq<Found>, root: Seq<u8>) -> Option<Config> {
    match root_text(fs, root) {
        Some(text) => shadowconfig_of(text),
        None => None,
    }
}

/// Whether the only configuration among found files is at the source root, and holds what
/// is written for a given one.
pub open spec fn holds_config(fs: Seq<Found>, root: Seq<u8>, c: Config) -> bool {
    exists|i: int|
        #![trigger is_root_config(fs[i], root)]
        {
            &&& 0 <= i < fs.len()
            &&& is_root_config(fs[i], root)
            &&& text_of(fs[i].content) == Some(shadowconfig_text(c))
            &&& forall|j: int|
                0 <= j < fs.len() && j != i ==> rule_file_of((#[trigger] fs[j]).name)
                    != RuleFile::Shadowconfig
        }
}

/// The patterns to take out that the configuration at the source root asks for.
pub open spec fn root_drops(fs: Seq<Found>, root: Seq<u8>, home: Option<Seq<u8>>) -> Seq<DropAt> {
    match root_config(fs, root) {
        Some(c) => drops_at(c.gitignore_drop, root, home),
        None => Seq::<DropAt>::empty(),
    }
}

/// Every file was found in an absolute directory.
pub open spec fn absolute_dirs(fs: Seq<FoundFile>) -> bool {
    forall|i: int| 0 <= i < fs.len() ==> is_absolute((#[trigger] fs[i]).dir@)
}

/// The patterns to take out that the configuration at the source root asks for.
pub fn find_root_drops(fs: &Vec<FoundFile>, root: &FsPath, home: &Option<FsPath>) -> (out: Vec<
    DropRule,
>)
    ensures
        drop_rules(out@) == root_drops(found_files(fs@), root@, path_view(*home)),
        forall|c: Config|
            root_text(found_files(fs@), root@) == Some(#[trigger] shadowconfig_text(c))
                ==> root_config(found_files(fs@), root@) == Some(c),
{
    let ghost all = found_files(fs@);
    let mut n: usize = fs.len();
    let none: Vec<DropRule> = Vec::new();
    assert(drop_rules(none@) =~= Seq::<DropAt>::empty());
    assert(all.take(n as int) =~= all);
    while n > 0
        invariant
            n <= fs.len(),
            all == found_files(fs@),
            drop_rules(none@) == Seq::<DropAt>::empty(),
            root_text(all.take(n as int), root@) == root_text(all, root@),
        decreases n,
    {
        let f = &fs[n - 1];
        assert(all.take(n as int).last() == f@);
        assert(all.take(n as int).drop_last() =~= all.take(n - 1));
        if rule_file(&f.name) == RuleFile::Shadowconfig && f.dir.same(root) {
            return match file_text(&f.content) {
                Some(text) => match parse_shadowconfig(&text) {
                    Ok(c) => resolve_drops(&c.gitignore_drop, root, home),
                    Err(_) => none,
                },
                None => none,
            };
        }
        n -= 1;
    }
    none
}

/// What rule files have said so far.
pub struct Scanner {
    pub lists: MatcherLists,
    pub renames: Vec<FolderRename>,
}

impl View for Scanner {
    type V = Scan;

    open spec fn view(&self) -> Scan {
        Scan { lists: self.lists@, renames: renames(self.renames@) }
    }
}

/// How rule files are read.
pub struct ReadRules<'a> {
    pub root: &'a FsPath,
    pub case_sensitive: bool,
    pub children: ChildConfigs,
    pub drops: &'a Vec<DropRule>,
}

impl<'a> ReadRules<'a> {
    /// The model of how rule files are read.
    pub open spec fn model(&self) -> Reading {
        Reading {
            root: self.root@,
            case_sensitive: self.case_sensitive,
            children: self.children,
            drops: drop_rules(self.drops@),
        }
    }

    /// Adds what a configuration says.
    fn config(&self, s: &mut Scanner, f: &FoundFile) -> (out: Result<(), LoadError>)
        requires
            old(s).lists.wf(),
            is_absolute(f.dir@),
        ensures
            final(s).lists.wf(),
            match out {
                Ok(_) => config_step(old(s)@, f@, self.model()) == Ok::<Scan, Failure>(final(s)@),
                Err(e) => config_step(old(s)@, f@, self.model()) == Err::<Scan, Failure>(e@),
            },
    {
        let is_root = f.dir.same(self.root);
        if !is_root {
            match self.children {
                ChildConfigs::Reject => {
                    return Err(LoadError::Nested(shadowconfig_in(&f.dir)));
                },
                ChildConfigs::Skip => {
                    return Ok(());
                },
                ChildConfigs::Compose => {},
            }
        }
        let text = match file_text(&f.content) {
            Some(t) => t,
            None => {
                return Err(LoadError::Reading(shadowconfig_in(&f.dir)));
            },
        };
        let config = match parse_shadowconfig(&text) {
            Ok(c) => c,
            Err(_) => {
                return Err(LoadError::Parsing(shadowconfig_in(&f.dir)));
            },
        };
        if !is_root && config.folder_renames.len() > 0 {
            return Err(
                LoadError::NestedRenames(shadowconfig_in(&f.dir), shadowconfig_in(self.root)),
            );
        }
        s.lists.add_config(&f.dir, &config, self.case_sensitive);
        if is_root {
            s.renames = config.folder_renames;
        }
        Ok(())
    }

    /// Adds what the files of a source tree say, in order, up to the first failure.
    pub fn tree(&self, s: &mut Scanner, fs: &Vec<FoundFile>) -> (out: Result<(), LoadError>)
        requires
            old(s).lists.wf(),
            absolute_dirs(fs@),
        ensures
            final(s).lists.wf(),
            match out {
                Ok(_) => scan_tree(old(s)@, found_files(fs@), self.model()) == Ok::<Scan, Failure>(
                    final(s)@,
                ),
                Err(e) => scan_tree(old(s)@, found_files(fs@), self.model()) == Err::<
                    Scan,
                    Failure,
                >(e@),
            },
    {
        let ghost all = found_files(fs@);
        let ghost how = self.model();
        let mut i: usize = 0;
        while i < fs.len()
            invariant
                i <= fs.len(),
                all == found_files(fs@),
                how == self.model(),
                absolute_dirs(fs@),
                s.lists.wf(),
                scan_tree(old(s)@, all.take(i as int), how) == Ok::<Scan, Failure>(s@),
            decreases fs.len() - i,
        {
            let f = &fs[i];
            assert(all.take(i + 1).last() == f@);
            assert(all.take(i + 1).drop_last() =~= all.take(i as int));
            match rule_file(&f.name) {
                RuleFile::Gitignore => {
                    s.lists.add_gitignore(&f.dir, &f.content, self.drops, self.case_sensitive);
                },
                RuleFile::Shadowconfig => {
                    match self.config(s, f) {
                        Ok(_) => {},
                        Err(e) => {
                            proof {
                                lemma_scan_fails(old(s)@, all, i + 1, how);
                            }
                            return Err(e);
                        },
                    }
                },
                RuleFile::Other => {},
            }
            i += 1;
        }
        assert(all.take(all.len() as int) =~= all);
        Ok(())
    }

    /// What the gitignore files above the source root say, in order. Any other file there
    /// says nothing.
    pub fn ancestors(&self, fs: &Vec<FoundFile>) -> (l: MatcherLists)
        requires
            absolute_dirs(fs@),
        ensures
            l.wf(),
            l@ == scan_ancestors(found_files(fs@), self.model()),
    {
        let mut l = MatcherLists::new();
        let ghost all = found_files(fs@);
        let ghost how = self.model();
        let mut i: usize = 0;
        while i < fs.len()
            invariant
                i <= fs.len(),
                all == found_files(fs@),
                how == self.model(),
                absolute_dirs(fs@),
                l.wf(),
                l@ == scan_ancestors(all.take(i as int), how),
            decreases fs.len() - i,
        {
            let f = &fs[i];
            assert(all.take(i + 1).last() == f@);
            assert(all.take(i + 1).drop_last() =~= all.take(i as int));
            if rule_file(&f.name) == RuleFile::Gitignore {
                l.add_gitignore(&f.dir, &f.content, self.drops, self.case_sensitive);
            }
            i += 1;
        }
        assert(all.take(all.len() as int) =~= all);
        l
    }
}

proof fn lemma_root_text(fs: Seq<Found>, root: Seq<u8>, i: int)
    requires
        0 <= i < fs.len(),
        is_root_config(fs[i], root),
        forall|j: int|
            0 <= j < fs.len() && j != i ==> rule_file_of((#[trigger] fs[j]).name)
                != RuleFile::Shadowconfig,
    ensures
        root_text(fs, root) == text_of(fs[i].content),
    decreases fs.len(),
{
    assert(fs[fs.len() - 1] == fs.last());
    if i < fs.len() - 1 {
        let front = fs.drop_last();
        assert forall|j: int| 0 <= j < front.len() && j != i implies rule_file_of(
            (#[trigger] front[j]).name,
        ) != RuleFile::Shadowconfig by {
            assert(front[j] == fs[j]);
        }
        lemma_root_text(front, root, i);
    }
}

proof fn lemma_scan_succeeds(start: Scan, fs: Seq<Found>, how: Reading, c: Config)
    requires
        forall|i: int|
            0 <= i < fs.len() && rule_file_of((#[trigger] fs[i]).name) == RuleFile::Shadowconfig
                ==> is_root_config(fs[i], how.root) && (text_of(fs[i].content) matches Some(text)
                && shadowconfig_of(text) == Some(c)),
    ensures
        scan_tree(start, fs, how) matches Ok(s) && (s.renames == c.folder_renames || (s.renames
            == start.renames && forall|i: int|
            0 <= i < fs.len() ==> rule_file_of((#[trigger] fs[i]).name) != RuleFile::Shadowconfig)),
    decreases fs.len(),
{
    if fs.len() > 0 {
        let front = fs.drop_last();
        assert forall|i: int|
            0 <= i < front.len() && rule_file_of((#[trigger] front[i]).name)
                == RuleFile::Shadowconfig implies is_root_config(front[i], how.root) && (text_of(
            front[i].content,
        ) matches Some(text) && shadowconfig_of(text) == Some(c)) by {
            assert(front[i] == fs[i]);
        }
        lemma_scan_succeeds(start, front, how, c);
        assert(fs[fs.len() - 1] == fs.last());
        let s = scan_tree(start, front, how)->Ok_0;
        if rule_file_of(fs.last().name) != RuleFile::Shadowconfig && s.renames
            != c.folder_renames {
            assert forall|i: int| 0 <= i < fs.len() implies rule_file_of((#[trigger] fs[i]).name)
                != RuleFile::Shadowconfig by {
                if i < fs.len() - 1 {
                    assert(front[i] == fs[i]);
                }
            }
        }
    }
}

/// What was written for a configuration can be loaded, and gives its renames.
pub(crate) proof fn lemma_load_saved(start: Scan, fs: Seq<Found>, how: Reading, c: Config)
    requires
        holds_config(fs, how.root, c),
        root_text(fs, how.root) == Some(shadowconfig_text(c)) ==> root_config(fs, how.root)
            == Some(c),
    ensures
        root_config(fs, how.root) == Some(c),
        scan_tree(start, fs, how) matches Ok(s) && s.renames == c.folder_renames,
{
    let i = choose|i: int|
        #![trigger is_root_config(fs[i], how.root)]
        {
            &&& 0 <= i < fs.len()
            &&& is_root_config(fs[i], how.root)
            &&& text_of(fs[i].content) == Some(shadowconfig_text(c))
            &&& forall|j: int|
                0 <= j < fs.len() && j != i ==> rule_file_of((#[trigger] fs[j]).name)
                    != RuleFile::Shadowconfig
        };
    lemma_root_text(fs, how.root, i);
    lemma_scan_succeeds(start, fs, how, c);
}

proof fn lemma_scan_fails(start: Scan, fs: Seq<Found>, i: int, how: Reading)
    requires
        0 <= i <= fs.len(),
        scan_tree(start, fs.take(i), how) is Err,
    ensures
        scan_tree(start, fs, how) == scan_tree(start, fs.take(i), how),
    decreases fs.len(),
{
    if i < fs.len() {
        assert(fs.drop_last().take(i) =~= fs.take(i));
        lemma_scan_fails(start, fs.drop_last(), i, how);
    } else {
        assert(fs.take(i) =~= fs);
    }
}

/// The directories above a path, nearest first.
pub open spec fn ancestors_of(t: Seq<u8>) -> Seq<Seq<u8>>
    decreases kept(pieces(t)).len(),
{
    match parent(t) {
        Some(p) => {
            proof {
                law_parent_shorter(t);
            }
            seq![p] + ancestors_of(p)
        },
        None => Seq::<Seq<u8>>::empty(),
    }
}

/// The directories above a path, nearest first.
pub fn ancestors(p: &FsPath) -> (dirs: Vec<FsPath>)
    ensures
        paths(dirs@) == ancestors_of(p@),
{
    let mut dirs: Vec<FsPath> = Vec::new();
    let mut here = p.parent();
    assert(paths(dirs@) + rest_of(here) =~= ancestors_of(p@));
    loop
        invariant
            paths(dirs@) + rest_of(here) == ancestors_of(p@),
        ensures
            here is None,
        decreases
            match here {
                Some(d) => kept(pieces(d@)).len() + 1,
                None => 0,
            },
    {
        let dir = match here {
            Some(d) => d,
            None => {
                break;
            },
        };
        proof {
            law_parent_shorter(dir@);
        }
        here = dir.parent();
        let ghost was = paths(dirs@);
        dirs.push(dir);
        assert(paths(dirs@) =~= was.push(dir@));
        assert(was + (seq![dir@] + rest_of(here)) =~= paths(dirs@) + rest_of(here));
    }
    assert(paths(dirs@) + Seq::<Seq<u8>>::empty() =~= paths(dirs@));
    dirs
}

spec fn rest_of(here: Option<FsPath>) -> Seq<Seq<u8>> {
    match here {
        Some(d) => seq![d@] + ancestors_of(d@),
        None => Seq::<Seq<u8>>::empty(),
    }
}

} // verus!
