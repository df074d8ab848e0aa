//! Rule files: what was found on disk, and what it adds to the rules.

use crate::bytes::{bytes_eq, copy_bytes};
use crate::config::{Drops, GitignoreDrop};
use crate::matcher::content_view;
use crate::path::{joined, same_place, FsPath};
use crate::text::{decode, texts};
use vstd::prelude::*;
use vstd::utf8::{decode_utf8, encode_utf8, valid_utf8};

verus! {

/// The name of the files that hold gitignore lines.
pub open spec fn gitignore_name() -> Seq<u8> {
    encode_utf8(".gitignore"@)
}

/// The name of the files that hold a configuration.
pub open spec fn shadowconfig_name() -> Seq<u8> {
    encode_utf8(".shadowconfig"@)
}

/// A file that was found: the directory it lies in, its name, and its bytes where it
/// could be read.
pub struct FoundFile {
    pub dir: FsPath,
    pub name: Vec<u8>,
    pub content: Option<Vec<u8>>,
}

/// The model of a found file.
#[verifier::ext_equal]
pub struct Found {
    pub dir: Seq<u8>,
    pub name: Seq<u8>,
    pub content: Option<Seq<u8>>,
}

impl View for FoundFile {
    type V = Found;

    open spec fn view(&self) -> Found {
        Found { dir: self.dir@, name: self.name@, content: content_view(self.content) }
    }
}

/// The models of a list of found files.
pub open spec fn found_files(v: Seq<FoundFile>) -> Seq<Found> {
    Seq::new(v.len(), |i: int| v[i]@)
}

/// What a file name says of the file.
#[derive(Debug, Clone, Copy, PartialEq, Eq, Structural)]
pub enum RuleFile {
    Gitignore,
    Shadowconfig,
    Other,
}

/// What a file name says of the file.
pub open spec fn rule_file_of(name: Seq<u8>) -> RuleFile {
    if name == gitignore_name() {
        RuleFile::Gitignore
    } else if name == shadowconfig_name() {
        RuleFile::Shadowconfig
    } else {
        RuleFile::Other
    }
}

/// What a file name says of the file: only rule files need to be read.
pub fn rule_file(name: &[u8]) -> (kind: RuleFile)
    ensures
        kind == rule_file_of(name@),
{
    if bytes_eq(name, ".gitignore".as_bytes()) {
        RuleFile::Gitignore
    } else if bytes_eq(name, ".shadowconfig".as_bytes()) {
        RuleFile::Shadowconfig
    } else {
        RuleFile::Other
    }
}

/// The path of the gitignore file in a directory.
pub fn gitignore_in(dir: &FsPath) -> (p: FsPath)
    ensures
        p@ == joined(dir@, gitignore_name()),
{
    dir.join(&FsPath::from_bytes(".gitignore".as_bytes()))
}

/// The path of the configuration in a directory.
pub fn shadowconfig_in(dir: &FsPath) -> (p: FsPath)
    ensures
        p@ == joined(dir@, shadowconfig_name()),
{
    dir.join(&FsPath::from_bytes(".shadowconfig".as_bytes()))
}

/// The text of a file, where it could be read and is UTF-8.
pub open spec fn text_of(content: Option<Seq<u8>>) -> Option<Seq<char>> {
    match content {
        Some(c) => if valid_utf8(c) {
            Some(decode_utf8(c))
        } else {
            None
        },
        None => None,
    }
}

/// The text of a file, where it could be read and is UTF-8.
pub fn file_text(content: &Option<Vec<u8>>) -> (t: Option<String>)
    ensures
        match t {
            Some(s) => text_of(content_view(*content)) == Some(s@),
            None => text_of(content_view(*content)) is None,
        },
{
    match content {
        Some(c) => decode(copy_bytes(c)),
        None => None,
    }
}

/// Patterns to take out of the gitignore file at a path.
pub struct DropRule {
    pub file: FsPath,
    pub patterns: Vec<String>,
}

/// The model of patterns to take out.
#[verifier::ext_equal]
pub struct DropAt {
    pub file: Seq<u8>,
    pub patterns: Seq<Seq<char>>,
}

impl View for DropRule {
    type V = DropAt;

    open spec fn view(&self) -> DropAt {
        DropAt { file: self.file@, patterns: texts(self.patterns@) }
    }
}

/// The models of a list of patterns to take out.
pub open spec fn drop_rules(v: Seq<DropRule>) -> Seq<DropAt> {
    Seq::new(v.len(), |i: int| v[i]@)
}

/// The patterns to take out of the gitignore file at a path.
pub open spec fn patterns_for(ds: Seq<DropAt>, file: Seq<u8>) -> Seq<Seq<char>>
    decreases ds.len(),
{
    if ds.len() == 0 {
        Seq::<Seq<char>>::empty()
    } else {
        let before = patterns_for(ds.drop_last(), file);
        if same_place(ds.last().file, file) {
            before + ds.last().patterns
        } else {
            before
        }
    }
}

/// Appends copies of texts.
fn push_texts(out: &mut Vec<String>, more: &Vec<String>)
    ensures
        texts(final(out)@) == texts(old(out)@) + texts(more@),
{
    let mut i: usize = 0;
    assert(texts(out@) =~= texts(old(out)@) + texts(more@).take(0));
    while i < more.len()
        invariant
            i <= more.len(),
            texts(out@) == texts(old(out)@) + texts(more@).take(i as int),
        decreases more.len() - i,
    {
        let ghost was = texts(out@);
        out.push(more[i].clone());
        assert(texts(out@) =~= was.push(more[i as int]@));
        assert(texts(more@).take(i + 1) =~= texts(more@).take(i as int).push(more[i as int]@));
        i += 1;
    }
    assert(texts(more@).take(more@.len() as int) =~= texts(more@));
}

/// The patterns to take out of the gitignore file at a path.
pub fn find_patterns(ds: &Vec<DropRule>, file: &FsPath) -> (out: Vec<String>)
    ensures
        texts(out@) == patterns_for(drop_rules(ds@), file@),
{
    let mut out: Vec<String> = Vec::new();
    let ghost all = drop_rules(ds@);
    let mut i: usize = 0;
    assert(texts(out@) =~= patterns_for(all.take(0), file@));
    while i < ds.len()
        invariant
            i <= ds.len(),
            all == drop_rules(ds@),
            texts(out@) == patterns_for(all.take(i as int), file@),
        decreases ds.len() - i,
    {
        assert(all.take(i + 1).drop_last() =~= all.take(i as int));
        if ds[i].file.same_place(file) {
            push_texts(&mut out, &ds[i].patterns);
        }
        i += 1;
    }
    assert(all.take(all.len() as int) =~= all);
    out
}

/// The text behind a leading `~/`.
pub open spec fn behind_tilde(t: Seq<u8>) -> Option<Seq<u8>> {
    if t.len() >= 2 && t[0] == 126 && t[1] == 47 {
        Some(t.skip(2))
    } else {
        None
    }
}

/// The gitignore file that patterns are taken out of. A name is read from the source
/// root, or from the home directory behind `~/`; a `..` in it leads one directory up.
pub open spec fn drop_target(
    gitignore: Option<Seq<char>>,
    root: Seq<u8>,
    home: Option<Seq<u8>>,
) -> Seq<u8> {
    match gitignore {
        None => joined(root, gitignore_name()),
        Some(g) => match (behind_tilde(encode_utf8(g)), home) {
            (Some(rest), Some(h)) => joined(h, rest),
            _ => joined(root, encode_utf8(g)),
        },
    }
}

/// The patterns to take out that a configuration asks for.
pub open spec fn drops_at(ds: Seq<Drops>, root: Seq<u8>, home: Option<Seq<u8>>) -> Seq<DropAt> {
    ds.map_values(
        |d: Drops|
            DropAt { file: drop_target(d.gitignore, root, home), patterns: d.patterns },
    )
}

/// The bytes of an optional path.
pub open spec fn path_view(p: Option<FsPath>) -> Option<Seq<u8>> {
    match p {
        Some(q) => Some(q@),
        None => None,
    }
}

/// The gitignore file that patterns are taken out of.
fn target(d: &GitignoreDrop, root: &FsPath, home: &Option<FsPath>) -> (p: FsPath)
    ensures
        p@ == drop_target(d@.gitignore, root@, path_view(*home)),
{
    match &d.gitignore {
        None => gitignore_in(root),
        Some(g) => {
            let text = g.as_str().as_bytes();
            if text.len() >= 2 && text[0] == 126 && text[1] == 47 {
                if let Some(h) = home {
                    let rest = vstd::slice::slice_subrange(text, 2, text.len());
                    assert(rest@ =~= text@.skip(2));
                    return h.join(&FsPath::from_bytes(rest));
                }
            }
            root.join(&FsPath::from_bytes(text))
        },
    }
}

/// The patterns to take out that a configuration asks for.
pub fn resolve_drops(ds: &Vec<GitignoreDrop>, root: &FsPath, home: &Option<FsPath>) -> (out: Vec<
    DropRule,
>)
    ensures
        drop_rules(out@) == drops_at(crate::config::drop_list(ds@), root@, path_view(*home)),
{
    let mut out: Vec<DropRule> = Vec::new();
    let ghost all = drops_at(crate::config::drop_list(ds@), root@, path_view(*home));
    let mut i: usize = 0;
    assert(drop_rules(out@) =~= all.take(0));
    while i < ds.len()
        invariant
            i <= ds.len(),
            all == drops_at(crate::config::drop_list(ds@), root@, path_view(*home)),
            drop_rules(out@) == all.take(i as int),
        decreases ds.len() - i,
    {
        let ghost was = drop_rules(out@);
        let mut patterns: Vec<String> = Vec::new();
        push_texts(&mut patterns, &ds[i].patterns);
        let file = target(&ds[i], root, home);
        let rule = DropRule { file, patterns };
        assert(rule@ =~= all[i as int]);
        out.push(rule);
        assert(drop_rules(out@) =~= was.push(rule@));
        i += 1;
    }
    assert(all.take(all.len() as int) =~= all);
    out
}

} // verus!
