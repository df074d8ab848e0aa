//! Gitignore matchers: the lines of one file or pattern list, read from one directory.

use crate::path::{is_absolute, strip, FsPath, DOT, SEP};
use crate::text::{
    decode, lines, lower_form, lower_path, lowered, split_lines, strip_bom, texts, to_lower,
    trim, trimmed, without_bom,
};
use bstr::ByteSlice;
use ignore::gitignore::{Gitignore, GitignoreBuilder};
use vstd::prelude::*;
use vstd::utf8::{decode_utf8, valid_utf8};

verus! {

/// `ignore::gitignore::GitignoreBuilder`: a list of gitignore lines under one root.
#[verifier::external_type_specification]
#[verifier::external_body]
pub struct ExGitignoreBuilder(GitignoreBuilder);

/// `ignore::gitignore::Gitignore`: a compiled list of gitignore lines.
#[verifier::external_type_specification]
#[verifier::external_body]
pub struct ExGitignore(Gitignore);

/// The directory that a builder was made for.
pub uninterp spec fn builder_root(b: GitignoreBuilder) -> Seq<u8>;

/// The lines that a builder was handed, in order. This is a record of the calls of
/// `add_line`: blank lines and comments are in it, though the builder keeps nothing of
/// them.
pub uninterp spec fn builder_lines(b: GitignoreBuilder) -> Seq<Seq<char>>;

/// The directory that a matcher is for; a matcher without a glob is for none.
pub uninterp spec fn matcher_root(m: Gitignore) -> Seq<u8>;

/// The lines that the builder of a matcher was handed, in order: a record as
/// `builder_lines` is.
pub uninterp spec fn matcher_lines(m: Gitignore) -> Seq<Seq<char>>;

/// Whether `GitignoreBuilder::build` succeeds on these lines.
pub uninterp spec fn gitignore_compiles(lines: Seq<Seq<char>>) -> bool;

/// Whether `Gitignore::matched_path_or_any_parents` finds that these lines ignore a
/// path below the matcher's directory.
pub uninterp spec fn gitignore_verdict(
    lines: Seq<Seq<char>>,
    path: Seq<u8>,
    is_dir: bool,
) -> bool;

/// Trusted: `GitignoreBuilder::new`, on an absolute directory. The builder has no lines
/// yet. The bytes become a path by `ByteSlice::to_path_lossy` of `bstr`, which takes them
/// as they are where paths are bytes.
#[verifier::external_body]
fn new_builder(root: &[u8]) -> (b: GitignoreBuilder)
    requires
        is_absolute(root@),
    ensures
        builder_root(b) == root@,
        builder_lines(b) == Seq::<Seq<char>>::empty(),
{
    GitignoreBuilder::new(root.to_path_lossy())
}

/// Trusted: `GitignoreBuilder::add_line`, without a source file. The line is handed to
/// the builder behind those that it has; one that is no valid glob changes no verdict.
#[verifier::external_body]
fn add_line(b: &mut GitignoreBuilder, line: &str)
    ensures
        builder_root(*final(b)) == builder_root(*old(b)),
        builder_lines(*final(b)) == builder_lines(*old(b)).push(line@),
{
    let _ = b.add_line(None, line);
}

/// Trusted: `GitignoreBuilder::build`. Whether it succeeds depends on the lines alone.
/// The matcher is for the builder's directory, or, where no line is a glob, for none.
#[verifier::external_body]
fn build(b: &GitignoreBuilder) -> (m: Option<Gitignore>)
    ensures
        m is Some <==> gitignore_compiles(builder_lines(*b)),
        m is Some ==> matcher_lines(m->0) == builder_lines(*b),
        m is Some ==> matcher_root(m->0) == builder_root(*b) || matcher_root(m->0).len() == 0,
{
    b.build().ok()
}

/// Trusted: `Gitignore::matched_path_or_any_parents`, on a matcher for an absolute
/// directory, or for none, and a relative path, whose bytes become a path by
/// `ByteSlice::to_path_lossy` of `bstr`. There the verdict depends on the lines, the path
/// and its kind alone. A path that has a root once a leading `./` is taken off is left
/// out: the call panics on it.
#[verifier::external_body]
fn ignored(m: &Gitignore, path: &[u8], is_dir: bool) -> (yes: bool)
    requires
        matcher_root(*m).len() == 0 || is_absolute(matcher_root(*m)),
        !is_absolute(path@),
        !(path@.len() > 1 && path@[0] == DOT && path@[1] == SEP),
    ensures
        yes == gitignore_verdict(matcher_lines(*m), path@, is_dir),
{
    m.matched_path_or_any_parents(path.to_path_lossy(), is_dir).is_ignore()
}

/// The model of a matcher: where it is anchored, and its lines.
#[verifier::ext_equal]
pub struct Matcher {
    pub dir: Seq<u8>,
    pub lines: Seq<Seq<char>>,
}

/// Whether a matcher ignores a path: it lies below the matcher's directory, and the
/// lines ignore what remains of it there.
pub open spec fn ignores(m: Matcher, path: Seq<u8>, is_dir: bool) -> bool {
    match strip(path, m.dir) {
        Some(rel) => gitignore_verdict(m.lines, rel, is_dir),
        None => false,
    }
}

/// Whether some matcher ignores a path.
pub open spec fn any_ignores(ms: Seq<Matcher>, path: Seq<u8>, is_dir: bool) -> bool {
    exists|i: int| 0 <= i < ms.len() && #[trigger] ignores(ms[i], path, is_dir)
}

/// Where the matchers for a directory are anchored.
pub open spec fn anchor(dir: Seq<u8>, case_sensitive: bool) -> Seq<u8> {
    if case_sensitive {
        dir
    } else {
        lowered(dir)
    }
}

/// How many leading lines are valid UTF-8.
pub open spec fn readable(ls: Seq<Seq<u8>>) -> nat
    decreases ls.len(),
{
    if ls.len() == 0 {
        0
    } else {
        let n = readable(ls.drop_last());
        if n == ls.len() - 1 && valid_utf8(ls.last()) {
            ls.len()
        } else {
            n
        }
    }
}

/// Line `i` as text. A byte order mark in front of the first line is no part of it
/// where case counts.
pub open spec fn line_text(ls: Seq<Seq<u8>>, i: int, case_sensitive: bool) -> Seq<char> {
    let t = decode_utf8(ls[i]);
    if case_sensitive && i == 0 {
        without_bom(t)
    } else {
        t
    }
}

/// The lines of a gitignore file as text, up to the first that is no UTF-8. Where case
/// does not count, a file that cannot be read or is no UTF-8 has none at all.
pub open spec fn gitignore_texts(content: Option<Seq<u8>>, case_sensitive: bool) -> Option<
    Seq<Seq<char>>,
> {
    match content {
        Some(c) => if case_sensitive || valid_utf8(c) {
            Some(Seq::new(readable(lines(c)), |i: int| line_text(lines(c), i, case_sensitive)))
        } else {
            None
        },
        None => if case_sensitive {
            Some(Seq::<Seq<char>>::empty())
        } else {
            None
        },
    }
}

/// A text as it is matched: in lower case where case does not count.
pub open spec fn folded(t: Seq<char>, case_sensitive: bool) -> Seq<char> {
    if case_sensitive {
        t
    } else {
        lower_form(t)
    }
}

/// Whether a line is one of the patterns to drop, whitespace around the line aside.
pub open spec fn is_dropped(line: Seq<char>, drops: Seq<Seq<char>>, case_sensitive: bool) -> bool {
    exists|i: int|
        0 <= i < drops.len() && folded(#[trigger] drops[i], case_sensitive) == folded(
            trimmed(line),
            case_sensitive,
        )
}

/// The lines that reach the matcher: those that are not dropped, as they are matched.
pub open spec fn surviving(
    ls: Seq<Seq<char>>,
    drops: Seq<Seq<char>>,
    case_sensitive: bool,
) -> Seq<Seq<char>>
    decreases ls.len(),
{
    if ls.len() == 0 {
        Seq::<Seq<char>>::empty()
    } else {
        let before = surviving(ls.drop_last(), drops, case_sensitive);
        if is_dropped(ls.last(), drops, case_sensitive) {
            before
        } else {
            before.push(folded(ls.last(), case_sensitive))
        }
    }
}

/// The matcher for a gitignore file in `dir`, where there is one.
pub open spec fn gitignore_matcher(
    dir: Seq<u8>,
    content: Option<Seq<u8>>,
    drops: Seq<Seq<char>>,
    case_sensitive: bool,
) -> Option<Matcher> {
    match gitignore_texts(content, case_sensitive) {
        Some(ls) => {
            let rest = surviving(ls, drops, case_sensitive);
            if gitignore_compiles(rest) {
                Some(Matcher { dir: anchor(dir, case_sensitive), lines: rest })
            } else {
                None
            }
        },
        None => None,
    }
}

/// The matcher for a list of patterns in `dir`, where there is one.
pub open spec fn pattern_matcher(
    dir: Seq<u8>,
    patterns: Seq<Seq<char>>,
    case_sensitive: bool,
) -> Option<Matcher> {
    let ls = patterns.map_values(|p: Seq<char>| folded(p, case_sensitive));
    if patterns.len() > 0 && gitignore_compiles(ls) {
        Some(Matcher { dir: anchor(dir, case_sensitive), lines: ls })
    } else {
        None
    }
}

/// The bytes of an optional file content.
pub open spec fn content_view(content: Option<Vec<u8>>) -> Option<Seq<u8>> {
    match content {
        Some(c) => Some(c@),
        None => None,
    }
}

/// A path as it is matched: in lower case where case does not count.
pub fn anchored(p: &FsPath, case_sensitive: bool) -> (a: FsPath)
    ensures
        a@ == anchor(p@, case_sensitive),
        is_absolute(p@) ==> is_absolute(a@),
{
    if case_sensitive {
        p.clone()
    } else {
        lower_path(p)
    }
}

/// A text as it is matched.
fn fold(t: &str, case_sensitive: bool) -> (out: String)
    ensures
        out@ == folded(t@, case_sensitive),
{
    if case_sensitive {
        t.to_owned()
    } else {
        to_lower(t)
    }
}

/// Whether a line is one of the patterns to drop.
fn dropped(line: &str, drops: &Vec<String>, case_sensitive: bool) -> (yes: bool)
    ensures
        yes == is_dropped(line@, texts(drops@), case_sensitive),
{
    let key = fold(&trim(line), case_sensitive);
    let ghost all = texts(drops@);
    let mut i: usize = 0;
    while i < drops.len()
        invariant
            i <= drops.len(),
            all == texts(drops@),
            key@ == folded(trimmed(line@), case_sensitive),
            forall|j: int| 0 <= j < i ==> folded(#[trigger] all[j], case_sensitive) != key@,
        decreases drops.len() - i,
    {
        let pattern = fold(&drops[i], case_sensitive);
        if pattern == key {
            assert(folded(all[i as int], case_sensitive) == key@);
            return true;
        }
        assert(folded(all[i as int], case_sensitive) != key@);
        i += 1;
    }
    false
}

/// Gitignore lines anchored in one directory.
pub struct DirMatcher {
    dir: FsPath,
    matcher: Gitignore,
}

impl View for DirMatcher {
    type V = Matcher;

    closed spec fn view(&self) -> Matcher {
        Matcher { dir: self.dir@, lines: matcher_lines(self.matcher) }
    }
}

/// The models of a list of matchers.
pub open spec fn matchers(v: Seq<DirMatcher>) -> Seq<Matcher> {
    Seq::new(v.len(), |i: int| v[i]@)
}

impl DirMatcher {
    /// The matcher is anchored in an absolute directory, for which it was built.
    pub closed spec fn wf(&self) -> bool {
        &&& is_absolute(self.dir@)
        &&& matcher_root(self.matcher).len() == 0 || is_absolute(matcher_root(self.matcher))
    }

    /// The lines of a gitignore file, those to drop left out, anchored in `dir`.
    pub fn from_gitignore_file(
        dir: &FsPath,
        content: &Option<Vec<u8>>,
        drops: &Vec<String>,
        case_sensitive: bool,
    ) -> (made: Option<DirMatcher>)
        requires
            is_absolute(dir@),
        ensures
            match made {
                Some(m) => m.wf() && gitignore_matcher(
                    dir@,
                    content_view(*content),
                    texts(drops@),
                    case_sensitive,
                ) == Some(m@),
                None => gitignore_matcher(
                    dir@,
                    content_view(*content),
                    texts(drops@),
                    case_sensitive,
                ) is None,
            },
    {
        let anchor = anchored(dir, case_sensitive);
        let mut b = new_builder(anchor.as_bytes());
        match content {
            Some(c) => {
                if !case_sensitive {
                    let whole = crate::bytes::copy_bytes(c);
                    if decode(whole).is_none() {
                        return None;
                    }
                }
                Self::add_file(&mut b, c, drops, case_sensitive);
            },
            None => {
                if !case_sensitive {
                    return None;
                }
                assert(builder_lines(b) =~= surviving(
                    Seq::<Seq<char>>::empty(),
                    texts(drops@),
                    case_sensitive,
                ));
            },
        }
        match build(&b) {
            Some(matcher) => Some(DirMatcher { dir: anchor, matcher }),
            None => None,
        }
    }

    /// Hands the lines of a file to a builder.
    fn add_file(b: &mut GitignoreBuilder, content: &[u8], drops: &Vec<String>, case_sensitive: bool)
        requires
            builder_lines(*old(b)) == Seq::<Seq<char>>::empty(),
        ensures
            builder_root(*final(b)) == builder_root(*old(b)),
            builder_lines(*final(b)) == surviving(
                Seq::new(
                    readable(lines(content@)),
                    |i: int| line_text(lines(content@), i, case_sensitive),
                ),
                texts(drops@),
                case_sensitive,
            ),
    {
        let ls = split_lines(content);
        let ghost all = lines(content@);
        let ghost f = |i: int| line_text(all, i, case_sensitive);
        let mut i: usize = 0;
        assert(all.take(0) =~= Seq::<Seq<u8>>::empty());
        assert(ls.len() == 0 ==> all.take(0) =~= all);
        assert(Seq::new(0, f) =~= Seq::<Seq<char>>::empty());
        while i < ls.len()
            invariant
                i <= ls.len(),
                all == crate::bytes::contents(ls@),
                f == (|i: int| line_text(all, i, case_sensitive)),
                readable(all.take(i as int)) == i,
                i == ls.len() ==> readable(all) == i,
                builder_root(*b) == builder_root(*old(b)),
                builder_lines(*b) == surviving(
                    Seq::new(i as nat, f),
                    texts(drops@),
                    case_sensitive,
                ),
            ensures
                builder_root(*b) == builder_root(*old(b)),
                builder_lines(*b) == surviving(
                    Seq::new(readable(all), f),
                    texts(drops@),
                    case_sensitive,
                ),
            decreases ls.len() - i,
        {
            assert(all.take(i + 1).drop_last() =~= all.take(i as int));
            let line = crate::bytes::copy_bytes(&ls[i]);
            assert(all[i as int] == line@);
            match decode(line) {
                Some(t) => {
                    let text = if case_sensitive && i == 0 {
                        strip_bom(&t)
                    } else {
                        t
                    };
                    assert(text@ == f(i as int));
                    assert(Seq::new((i + 1) as nat, f).drop_last() =~= Seq::new(i as nat, f));
                    if !dropped(&text, drops, case_sensitive) {
                        add_line(b, &fold(&text, case_sensitive));
                    }
                },
                None => {
                    proof {
                        lemma_readable_stops(all, i as int);
                    }
                    break;
                },
            }
            i += 1;
            proof {
                if i == ls.len() {
                    assert(all.take(i as int) =~= all);
                }
            }
        }
    }

    /// A list of patterns anchored in `dir`.
    pub fn from_patterns(dir: &FsPath, patterns: &Vec<String>, case_sensitive: bool) -> (made: Option<
        DirMatcher,
    >)
        requires
            is_absolute(dir@),
        ensures
            match made {
                Some(m) => m.wf() && pattern_matcher(dir@, texts(patterns@), case_sensitive)
                    == Some(m@),
                None => pattern_matcher(dir@, texts(patterns@), case_sensitive) is None,
            },
    {
        if patterns.len() == 0 {
            return None;
        }
        let anchor = anchored(dir, case_sensitive);
        let mut b = new_builder(anchor.as_bytes());
        let ghost root = builder_root(b);
        let ghost all = texts(patterns@);
        let ghost f = |p: Seq<char>| folded(p, case_sensitive);
        let mut i: usize = 0;
        while i < patterns.len()
            invariant
                i <= patterns.len(),
                all == texts(patterns@),
                f == (|p: Seq<char>| folded(p, case_sensitive)),
                builder_root(b) == root,
                builder_lines(b) == all.take(i as int).map_values(f),
            decreases patterns.len() - i,
        {
            add_line(&mut b, &fold(&patterns[i], case_sensitive));
            assert(all.take(i + 1).map_values(f) =~= all.take(i as int).map_values(f).push(
                f(all[i as int]),
            ));
            i += 1;
        }
        assert(all.take(all.len() as int) =~= all);
        match build(&b) {
            Some(matcher) => Some(DirMatcher { dir: anchor, matcher }),
            None => None,
        }
    }

    /// Whether the lines ignore a path.
    pub fn matches(&self, path: &FsPath, is_dir: bool) -> (yes: bool)
        requires
            self.wf(),
        ensures
            yes == ignores(self@, path@, is_dir),
    {
        match path.strip_prefix(&self.dir) {
            Some(rel) => {
                proof {
                    crate::path_laws::lemma_strip_relative(path@, self.dir@);
                }
                ignored(&self.matcher, rel.as_bytes(), is_dir)
            },
            None => false,
        }
    }

    /// Whether the matcher is anchored at `dir` or below it.
    pub fn is_under(&self, dir: &FsPath) -> (yes: bool)
        ensures
            yes == crate::path::starts_with(self@.dir, dir@),
    {
        self.dir.starts_with(dir)
    }
}

proof fn lemma_readable_stops(ls: Seq<Seq<u8>>, i: int)
    requires
        0 <= i < ls.len(),
        readable(ls.take(i)) == i,
        !valid_utf8(ls[i]),
    ensures
        readable(ls) == i,
    decreases ls.len(),
{
    assert(ls.take(i + 1).drop_last() =~= ls.take(i));
    if ls.len() == i + 1 {
        assert(ls.take(i + 1) =~= ls);
    } else {
        assert(ls.drop_last().take(i) =~= ls.take(i));
        lemma_readable_stops(ls.drop_last(), i);
    }
}

} // verus!
