//! The three lists of matchers that rules are made of.

use crate::config::{Config, ShadowConfig};
use crate::found::{
    drop_rules, find_patterns, gitignore_in, gitignore_name, patterns_for, DropAt, DropRule,
};
use crate::matcher::{
    any_ignores, content_view, gitignore_matcher, ignores, matchers, pattern_matcher, DirMatcher,
    Matcher,
};
use crate::path::{is_absolute, joined, starts_with, FsPath};
use vstd::prelude::*;

verus! {

/// Matchers for gitignore files, for `[ignore]` and for `[writable]` sections.
pub struct MatcherLists {
    pub gitignore: Vec<DirMatcher>,
    pub ignore: Vec<DirMatcher>,
    pub writable: Vec<DirMatcher>,
}

/// The model of the three lists.
#[verifier::ext_equal]
pub struct Lists {
    pub gitignore: Seq<Matcher>,
    pub ignore: Seq<Matcher>,
    pub writable: Seq<Matcher>,
}

impl View for MatcherLists {
    type V = Lists;

    open spec fn view(&self) -> Lists {
        Lists {
            gitignore: matchers(self.gitignore@),
            ignore: matchers(self.ignore@),
            writable: matchers(self.writable@),
        }
    }
}

/// Every matcher of a list is anchored in an absolute directory.
pub open spec fn all_wf(ms: Seq<DirMatcher>) -> bool {
    forall|i: int| 0 <= i < ms.len() ==> (#[trigger] ms[i]).wf()
}

/// A list with one more matcher, where there is one.
pub open spec fn with_made(ms: Seq<Matcher>, made: Option<Matcher>) -> Seq<Matcher> {
    match made {
        Some(m) => ms.push(m),
        None => ms,
    }
}

/// The lists after a gitignore file.
pub open spec fn with_gitignore(
    l: Lists,
    dir: Seq<u8>,
    content: Option<Seq<u8>>,
    drops: Seq<DropAt>,
    case_sensitive: bool,
) -> Lists {
    let patterns = patterns_for(drops, joined(dir, gitignore_name()));
    Lists {
        gitignore: with_made(
            l.gitignore,
            gitignore_matcher(dir, content, patterns, case_sensitive),
        ),
        ..l
    }
}

/// The lists after a configuration.
pub open spec fn with_config(l: Lists, dir: Seq<u8>, c: Config, case_sensitive: bool) -> Lists {
    Lists {
        gitignore: l.gitignore,
        ignore: with_made(l.ignore, pattern_matcher(dir, c.ignore, case_sensitive)),
        writable: with_made(l.writable, pattern_matcher(dir, c.writable, case_sensitive)),
    }
}

/// The matchers that are not anchored at `dir` or below it.
pub open spec fn outside(ms: Seq<Matcher>, dir: Seq<u8>) -> Seq<Matcher> {
    ms.filter(|m: Matcher| !starts_with(m.dir, dir))
}

/// The lists without the matchers at `dir` or below it.
pub open spec fn lists_outside(l: Lists, dir: Seq<u8>) -> Lists {
    Lists {
        gitignore: outside(l.gitignore, dir),
        ignore: outside(l.ignore, dir),
        writable: outside(l.writable, dir),
    }
}

/// Lists with nothing in them.
pub open spec fn no_lists() -> Lists {
    Lists {
        gitignore: Seq::<Matcher>::empty(),
        ignore: Seq::<Matcher>::empty(),
        writable: Seq::<Matcher>::empty(),
    }
}

/// Whether some matcher of a list ignores a path.
pub fn any_matches(ms: &Vec<DirMatcher>, path: &FsPath, is_dir: bool) -> (yes: bool)
    requires
        all_wf(ms@),
    ensures
        yes == any_ignores(matchers(ms@), path@, is_dir),
{
    let ghost all = matchers(ms@);
    let mut i: usize = 0;
    while i < ms.len()
        invariant
            i <= ms.len(),
            all == matchers(ms@),
            all_wf(ms@),
            forall|j: int| 0 <= j < i ==> !#[trigger] ignores(all[j], path@, is_dir),
        decreases ms.len() - i,
    {
        if ms[i].matches(path, is_dir) {
            assert(ignores(all[i as int], path@, is_dir));
            return true;
        }
        assert(!ignores(all[i as int], path@, is_dir));
        i += 1;
    }
    false
}

/// Adds a matcher, where there is one.
fn push_made(ms: &mut Vec<DirMatcher>, made: Option<DirMatcher>)
    requires
        all_wf(old(ms)@),
        made matches Some(m) ==> m.wf(),
    ensures
        all_wf(final(ms)@),
        matchers(final(ms)@) == with_made(
            matchers(old(ms)@),
            match made {
                Some(m) => Some(m@),
                None => None,
            },
        ),
{
    match made {
        Some(m) => {
            ms.push(m);
            assert(matchers(ms@) =~= matchers(old(ms)@).push(m@));
        },
        None => {},
    }
}

/// Takes out the matchers that are anchored at `dir` or below it.
fn keep_outside(ms: Vec<DirMatcher>, dir: &FsPath) -> (kept: Vec<DirMatcher>)
    requires
        all_wf(ms@),
    ensures
        all_wf(kept@),
        matchers(kept@) == outside(matchers(ms@), dir@),
{
    let ghost all = matchers(ms@);
    let ghost f = |m: Matcher| !starts_with(m.dir, dir@);
    let mut rest = ms;
    let mut kept: Vec<DirMatcher> = Vec::new();
    assert(all.skip(0) =~= all);
    assert(matchers(kept@) + outside(all, dir@) =~= outside(all, dir@));
    while rest.len() > 0
        invariant
            all == matchers(ms@),
            all_wf(rest@),
            all_wf(kept@),
            f == (|m: Matcher| !starts_with(m.dir, dir@)),
            matchers(kept@) + outside(matchers(rest@), dir@) == outside(all, dir@),
        decreases rest.len(),
    {
        let ghost before = matchers(rest@);
        let ghost was = matchers(kept@);
        let m = rest.remove(0);
        assert(matchers(rest@) =~= before.drop_first());
        assert(before[0] == m@);
        proof {
            lemma_filter_first(before, f);
        }
        if !m.is_under(dir) {
            kept.push(m);
            assert(matchers(kept@) =~= was.push(m@));
            assert(was + outside(before, dir@) =~= matchers(kept@) + outside(
                matchers(rest@),
                dir@,
            ));
        } else {
            assert(outside(before, dir@) =~= outside(matchers(rest@), dir@));
        }
    }
    assert(matchers(rest@) =~= Seq::<Matcher>::empty());
    assert(outside(matchers(rest@), dir@) =~= Seq::<Matcher>::empty()) by {
        reveal(Seq::filter);
    }
    assert(matchers(kept@) + Seq::<Matcher>::empty() =~= matchers(kept@));
    kept
}

proof fn lemma_filter_first(s: Seq<Matcher>, f: spec_fn(Matcher) -> bool)
    requires
        s.len() > 0,
    ensures
        s.filter(f) == (if f(s[0]) {
            seq![s[0]]
        } else {
            Seq::<Matcher>::empty()
        }) + s.drop_first().filter(f),
    decreases s.len(),
{
    reveal(Seq::filter);
    if s.len() == 1 {
        assert(s.drop_last() =~= Seq::<Matcher>::empty());
        assert(s.drop_first() =~= Seq::<Matcher>::empty());
    } else {
        lemma_filter_first(s.drop_last(), f);
        assert(s.drop_last().drop_first() =~= s.drop_first().drop_last());
        assert(s.drop_first().last() == s.last());
    }
    assert(s.filter(f) =~= (if f(s[0]) {
        seq![s[0]]
    } else {
        Seq::<Matcher>::empty()
    }) + s.drop_first().filter(f));
}

impl MatcherLists {
    /// Every matcher is anchored in an absolute directory.
    pub open spec fn wf(&self) -> bool {
        all_wf(self.gitignore@) && all_wf(self.ignore@) && all_wf(self.writable@)
    }

    /// Lists with nothing in them.
    pub fn new() -> (l: MatcherLists)
        ensures
            l.wf(),
            l@ == no_lists(),
    {
        let l = MatcherLists { gitignore: Vec::new(), ignore: Vec::new(), writable: Vec::new() };
        assert(l@ =~= no_lists());
        l
    }

    /// Adds what a gitignore file says.
    pub fn add_gitignore(
        &mut self,
        dir: &FsPath,
        content: &Option<Vec<u8>>,
        drops: &Vec<DropRule>,
        case_sensitive: bool,
    )
        requires
            old(self).wf(),
            is_absolute(dir@),
        ensures
            final(self).wf(),
            final(self)@ == with_gitignore(
                old(self)@,
                dir@,
                content_view(*content),
                drop_rules(drops@),
                case_sensitive,
            ),
    {
        let patterns = find_patterns(drops, &gitignore_in(dir));
        let made = DirMatcher::from_gitignore_file(dir, content, &patterns, case_sensitive);
        push_made(&mut self.gitignore, made);
    }

    /// Adds what a configuration says.
    pub fn add_config(&mut self, dir: &FsPath, config: &ShadowConfig, case_sensitive: bool)
        requires
            old(self).wf(),
            is_absolute(dir@),
        ensures
            final(self).wf(),
            final(self)@ == with_config(old(self)@, dir@, config@, case_sensitive),
    {
        let ignore = DirMatcher::from_patterns(dir, &config.ignore.patterns, case_sensitive);
        push_made(&mut self.ignore, ignore);
        let writable = DirMatcher::from_patterns(dir, &config.writable.patterns, case_sensitive);
        push_made(&mut self.writable, writable);
    }

    /// Takes out the matchers that are anchored at `dir` or below it.
    pub fn remove_under(&mut self, dir: &FsPath)
        requires
            old(self).wf(),
        ensures
            final(self).wf(),
            final(self)@ == lists_outside(old(self)@, dir@),
    {
        let mut gitignore: Vec<DirMatcher> = Vec::new();
        let mut ignore: Vec<DirMatcher> = Vec::new();
        let mut writable: Vec<DirMatcher> = Vec::new();
        std::mem::swap(&mut gitignore, &mut self.gitignore);
        std::mem::swap(&mut ignore, &mut self.ignore);
        std::mem::swap(&mut writable, &mut self.writable);
        self.gitignore = keep_outside(gitignore, dir);
        self.ignore = keep_outside(ignore, dir);
        self.writable = keep_outside(writable, dir);
    }
}

} // verus!
