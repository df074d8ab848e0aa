//! Directory listings: which entries of a directory are shown, and in what order.

use crate::attr::{is_dir, stat_is_dir, FileKind, FileStat, DT_DIR, DT_LNK};
use crate::inodes::Inodes;
use crate::path::{components, joined, FsPath, SEP};
use crate::path_laws::{law_components_joined, lemma_single_piece};
use crate::rules::{PathClass, RuleSet, Rules};
use crate::shadow_fs::{parent_number, Mount, ShadowFs};
use crate::text::{text_form, to_text_lossy};
use vstd::prelude::*;
use vstd::utf8::encode_utf8;

verus! {

/// An entry that is shown.
pub struct Child {
    pub path: FsPath,
    pub name: String,
    pub kind: FileKind,
}

/// The model of an entry that is shown.
#[verifier::ext_equal]
pub struct Shown {
    pub path: Seq<u8>,
    pub name: Seq<char>,
    pub kind: FileKind,
}

impl View for Child {
    type V = Shown;

    open spec fn view(&self) -> Shown {
        Shown { path: self.path@, name: self.name@, kind: self.kind }
    }
}

/// The models of a list of entries.
pub open spec fn shown_children(v: Seq<Child>) -> Seq<Shown> {
    Seq::new(v.len(), |i: int| v[i]@)
}

/// Whether a name is `.` or `..`.
pub open spec fn is_dots(name: Seq<u8>) -> bool {
    name == seq![46u8] || name == seq![46u8, 46u8]
}

/// Whether a byte string can be the name of an entry: it is not empty and has no `/`.
pub open spec fn is_entry_name(name: Seq<u8>) -> bool {
    name.len() > 0 && !name.contains(SEP)
}

/// The path of an entry.
pub open spec fn entry_path(dir: Seq<u8>, name: Seq<u8>) -> Seq<u8> {
    joined(dir, encode_utf8(text_form(name)))
}

/// The kind that the type of a directory entry stands for.
pub open spec fn entry_kind(d_type: u8) -> FileKind {
    if d_type == DT_DIR {
        FileKind::Directory
    } else if d_type == DT_LNK {
        FileKind::Symlink
    } else {
        FileKind::RegularFile
    }
}

/// Directory or regular file.
pub open spec fn dir_or_file(yes: bool) -> FileKind {
    if yes {
        FileKind::Directory
    } else {
        FileKind::RegularFile
    }
}

/// What is shown of an entry of the source tree. One that lives in the overlay is shown
/// once it is there.
pub open spec fn source_entry(
    r: Rules,
    dir: Seq<u8>,
    name: Seq<u8>,
    d_type: u8,
    overlay: Option<FileStat>,
) -> Option<Shown> {
    let path = entry_path(dir, name);
    if is_dots(name) {
        None
    } else {
        match r.class_of(path, d_type == DT_DIR) {
            PathClass::Hidden => None,
            PathClass::WritableOverlay => match overlay {
                Some(s) => Some(
                    Shown { path, name: text_form(name), kind: dir_or_file(is_dir(s)) },
                ),
                None => None,
            },
            _ => Some(Shown { path, name: text_form(name), kind: entry_kind(d_type) }),
        }
    }
}

/// Whether one of the first `n` entries has a name.
pub open spec fn has_name(cs: Seq<Shown>, n: nat, name: Seq<char>) -> bool {
    exists|i: int| 0 <= i < n && (#[trigger] cs[i]).name == name
}

/// What is shown of an entry of the overlay that the source tree has not shown.
pub open spec fn overlay_entry(r: Rules, l: DirList, name: Seq<u8>, d_type: u8) -> Option<Shown> {
    let path = entry_path(l.dir, name);
    if is_dots(name) || has_name(l.children, l.from_source, text_form(name)) {
        None
    } else if r.class_of(path, d_type == DT_DIR) == PathClass::WritableOverlay {
        Some(Shown { path, name: text_form(name), kind: dir_or_file(d_type == DT_DIR) })
    } else {
        None
    }
}

/// The model of a listing: the directory, the entries that are shown, and how many of
/// them the source tree gave.
#[verifier::ext_equal]
pub struct DirList {
    pub dir: Seq<u8>,
    pub children: Seq<Shown>,
    pub from_source: nat,
}

/// A listing of a directory.
pub struct Listing {
    dir: FsPath,
    children: Vec<Child>,
    from_source: usize,
}

impl View for Listing {
    type V = DirList;

    closed spec fn view(&self) -> DirList {
        DirList {
            dir: self.dir@,
            children: shown_children(self.children@),
            from_source: self.from_source as nat,
        }
    }
}

/// Whether every entry of a listing lies below the directory.
pub open spec fn children_below(l: DirList) -> bool {
    forall|i: int|
        0 <= i < l.children.len() ==> components((#[trigger] l.children[i]).path).len()
            > components(l.dir).len()
}

/// A listing with one more entry of the source tree.
pub open spec fn with_source(l: DirList, made: Option<Shown>) -> DirList {
    match made {
        Some(c) => DirList {
            dir: l.dir,
            children: l.children.push(c),
            from_source: l.from_source + 1,
        },
        None => l,
    }
}

/// A listing with one more entry of the overlay.
pub open spec fn with_overlay(l: DirList, made: Option<Shown>) -> DirList {
    match made {
        Some(c) => DirList { children: l.children.push(c), ..l },
        None => l,
    }
}

/// An entry as the system lists it: its name and type, and what the overlay has at its
/// path.
pub struct RawEntry {
    pub name: Vec<u8>,
    pub d_type: u8,
    pub overlay: Option<FileStat>,
}

/// The model of an entry as the system lists it.
#[verifier::ext_equal]
pub struct Raw {
    pub name: Seq<u8>,
    pub d_type: u8,
    pub overlay: Option<FileStat>,
}

impl View for RawEntry {
    type V = Raw;

    open spec fn view(&self) -> Raw {
        Raw { name: self.name@, d_type: self.d_type, overlay: self.overlay }
    }
}

/// The models of a list of entries.
pub open spec fn raw_entries(v: Seq<RawEntry>) -> Seq<Raw> {
    Seq::new(v.len(), |i: int| v[i]@)
}

/// Whether the names of entries can be names of entries.
pub open spec fn entry_names(es: Seq<Raw>) -> bool {
    forall|i: int| 0 <= i < es.len() ==> is_entry_name((#[trigger] es[i]).name)
}

/// The listing of a directory of the source tree.
pub open spec fn source_list(r: Rules, dir: Seq<u8>, es: Seq<Raw>) -> DirList
    decreases es.len(),
{
    if es.len() == 0 {
        DirList { dir, children: Seq::<Shown>::empty(), from_source: 0 }
    } else {
        let e = es.last();
        with_source(
            source_list(r, dir, es.drop_last()),
            source_entry(r, dir, e.name, e.d_type, e.overlay),
        )
    }
}

/// A listing with the entries that the overlay has in the directory.
pub open spec fn overlay_list(r: Rules, l: DirList, es: Seq<Raw>) -> DirList
    decreases es.len(),
{
    if es.len() == 0 {
        l
    } else {
        let before = overlay_list(r, l, es.drop_last());
        with_overlay(before, overlay_entry(r, before, es.last().name, es.last().d_type))
    }
}

/// The listing of a directory: what the source tree shows, then what only the overlay
/// has.
pub open spec fn list_of(r: Rules, dir: Seq<u8>, source: Seq<Raw>, overlay: Seq<Raw>) -> DirList {
    overlay_list(r, source_list(r, dir, source), overlay)
}

/// An entry as a listing gives it out.
pub struct ListEntry {
    pub ino: u64,
    pub offset: i64,
    pub kind: FileKind,
    pub name: String,
}

/// The model of an entry as a listing gives it out.
#[verifier::ext_equal]
pub struct Listed {
    pub ino: u64,
    pub offset: i64,
    pub kind: FileKind,
    pub name: Seq<char>,
}

impl View for ListEntry {
    type V = Listed;

    open spec fn view(&self) -> Listed {
        Listed { ino: self.ino, offset: self.offset, kind: self.kind, name: self.name@ }
    }
}

/// The entry of a listing behind an offset: the directory itself, the one above it, then
/// the entries that are shown.
pub open spec fn listed(t: Inodes, ino: u64, l: DirList, offset: i64) -> Option<Listed> {
    let at = next_position(offset);
    if offset == i64::MAX || at >= l.children.len() + 2 {
        None
    } else if at == 0 {
        Some(Listed { ino, offset: 1, kind: FileKind::Directory, name: "."@ })
    } else if at == 1 {
        Some(
            Listed {
                ino: parent_number(t, l.dir),
                offset: 2,
                kind: FileKind::Directory,
                name: ".."@,
            },
        )
    } else {
        let c = l.children[at - 2];
        Some(
            Listed {
                ino: t.number(c.path),
                offset: (at + 1) as i64,
                kind: c.kind,
                name: c.name,
            },
        )
    }
}

/// The inode numbers after the entry behind an offset was given out.
pub open spec fn numbers_after(t: Inodes, l: DirList, offset: i64) -> Inodes {
    let at = next_position(offset);
    if offset == i64::MAX || at < 2 || at >= l.children.len() + 2 {
        t
    } else {
        t.assigned(l.children[at - 2].path)
    }
}

/// All that a listing gives out from an offset on, each entry behind the one before it.
pub open spec fn listed_from(t: Inodes, ino: u64, l: DirList, offset: i64) -> Seq<Listed>
    decreases l.children.len() + 2 - next_position(offset),
{
    match listed(t, ino, l, offset) {
        Some(e) => seq![e] + listed_from(numbers_after(t, l, offset), ino, l, e.offset),
        None => Seq::<Listed>::empty(),
    }
}

/// The inode numbers after all from an offset on was given out.
pub open spec fn numbers_after_all(t: Inodes, ino: u64, l: DirList, offset: i64) -> Inodes
    decreases l.children.len() + 2 - next_position(offset),
{
    match listed(t, ino, l, offset) {
        Some(e) => numbers_after_all(numbers_after(t, l, offset), ino, l, e.offset),
        None => t,
    }
}

/// Where a listing goes on behind an offset.
pub open spec fn next_position(offset: i64) -> int {
    if offset < 0 {
        0
    } else {
        offset as int
    }
}

/// Whether a name is `.` or `..`.
fn dots(name: &[u8]) -> (yes: bool)
    ensures
        yes == is_dots(name@),
{
    let yes = (name.len() == 1 && name[0] == 46) || (name.len() == 2 && name[0] == 46 && name[1]
        == 46);
    proof {
        if yes && name.len() == 1 {
            assert(name@ =~= seq![46u8]);
        }
        if yes && name.len() == 2 {
            assert(name@ =~= seq![46u8, 46u8]);
        }
    }
    yes
}

impl Listing {
    /// The entries of the source tree come first.
    pub closed spec fn wf(&self) -> bool {
        self.from_source <= self.children.len()
    }

    /// An empty listing of a directory.
    pub fn new(dir: &FsPath) -> (l: Listing)
        ensures
            l.wf(),
            l@ == (DirList { dir: dir@, children: Seq::<Shown>::empty(), from_source: 0 }),
    {
        let l = Listing { dir: dir.clone(), children: Vec::new(), from_source: 0 };
        assert(shown_children(l.children@) =~= Seq::<Shown>::empty());
        l
    }

    /// The path of an entry of the directory: it lies below the directory, whatever bytes
    /// the name holds.
    pub fn entry_path(&self, name: &[u8]) -> (p: FsPath)
        ensures
            p@ == entry_path(self@.dir, name@),
            is_entry_name(name@) && !is_dots(name@) ==> components(p@).len() > components(
                self@.dir,
            ).len(),
    {
        let text = to_text_lossy(name);
        proof {
            if is_entry_name(name@) && !is_dots(name@) {
                let shown = encode_utf8(text@);
                assert forall|i: int| 0 <= i < shown.len() implies #[trigger] shown[i] != SEP by {
                    assert(shown.contains(shown[i]));
                }
                lemma_single_piece(shown);
                if shown.len() == 1 && shown[0] == 46 {
                    assert(shown =~= seq![46u8]);
                }
                law_components_joined(self@.dir, shown);
            }
        }
        self.dir.join(&FsPath::from_bytes(text.as_str().as_bytes()))
    }

    /// Takes in an entry of the source tree, given what the overlay has there. The
    /// entries of the source tree come before those of the overlay.
    pub fn add_source(
        &mut self,
        rules: &RuleSet,
        name: &[u8],
        d_type: u8,
        overlay: &Option<FileStat>,
    )
        requires
            old(self).wf(),
            old(self)@.from_source == old(self)@.children.len(),
            rules.wf(),
        ensures
            final(self).wf(),
            final(self)@ == with_source(
                old(self)@,
                source_entry(rules@, old(self)@.dir, name@, d_type, *overlay),
            ),
            final(self)@.from_source == final(self)@.children.len(),
            is_entry_name(name@) && children_below(old(self)@) ==> children_below(final(self)@),
    {
        if dots(name) {
            return ;
        }
        let path = self.entry_path(name);
        let kind = match rules.classify(&path, d_type == DT_DIR) {
            PathClass::Hidden => {
                return ;
            },
            PathClass::WritableOverlay => match overlay {
                Some(s) => if stat_is_dir(s) {
                    FileKind::Directory
                } else {
                    FileKind::RegularFile
                },
                None => {
                    return ;
                },
            },
            _ => if d_type == DT_DIR {
                FileKind::Directory
            } else if d_type == DT_LNK {
                FileKind::Symlink
            } else {
                FileKind::RegularFile
            },
        };
        let ghost was = shown_children(self.children@);
        let child = Child { path, name: to_text_lossy(name), kind };
        self.children.push(child);
        self.from_source = self.children.len();
        assert(shown_children(self.children@) =~= was.push(child@));
    }

    /// Whether the source tree gave an entry with a name.
    fn seen(&self, name: &String) -> (yes: bool)
        requires
            self.wf(),
        ensures
            yes == has_name(self@.children, self@.from_source, name@),
    {
        let ghost all = shown_children(self.children@);
        let mut i: usize = 0;
        while i < self.from_source
            invariant
                i <= self.from_source <= self.children.len(),
                all == shown_children(self.children@),
                forall|j: int| 0 <= j < i ==> (#[trigger] all[j]).name != name@,
            decreases self.from_source - i,
        {
            assert(all[i as int].name == self.children[i as int].name@);
            if self.children[i].name == *name {
                return true;
            }
            i += 1;
        }
        false
    }

    /// Takes in an entry of the overlay.
    pub fn add_overlay(&mut self, rules: &RuleSet, name: &[u8], d_type: u8)
        requires
            old(self).wf(),
            rules.wf(),
        ensures
            final(self).wf(),
            final(self)@ == with_overlay(
                old(self)@,
                overlay_entry(rules@, old(self)@, name@, d_type),
            ),
            is_entry_name(name@) && children_below(old(self)@) ==> children_below(final(self)@),
    {
        if dots(name) {
            return ;
        }
        let text = to_text_lossy(name);
        if self.seen(&text) {
            return ;
        }
        let path = self.entry_path(name);
        if rules.classify(&path, d_type == DT_DIR) == PathClass::WritableOverlay {
            let kind = if d_type == DT_DIR {
                FileKind::Directory
            } else {
                FileKind::RegularFile
            };
            let ghost was = shown_children(self.children@);
            let child = Child { path, name: text, kind };
            self.children.push(child);
            assert(shown_children(self.children@) =~= was.push(child@));
        }
    }

    /// The listing of a directory, given its entries in the source tree and in the
    /// overlay. Every entry lies below the directory.
    pub fn build(
        rules: &RuleSet,
        dir: &FsPath,
        source: &Vec<RawEntry>,
        overlay: &Vec<RawEntry>,
    ) -> (l: Listing)
        requires
            rules.wf(),
        ensures
            l.wf(),
            l@ == list_of(rules@, dir@, raw_entries(source@), raw_entries(overlay@)),
            entry_names(raw_entries(source@)) && entry_names(raw_entries(overlay@))
                ==> children_below(l@),
    {
        let mut l = Listing::new(dir);
        let ghost es = raw_entries(source@);
        let mut i: usize = 0;
        while i < source.len()
            invariant
                i <= source.len(),
                es == raw_entries(source@),
                rules.wf(),
                l.wf(),
                l@ == source_list(rules@, dir@, es.take(i as int)),
                l@.dir == dir@,
                l@.from_source == l@.children.len(),
                entry_names(es) ==> children_below(l@),
            decreases source.len() - i,
        {
            let e = &source[i];
            assert(es[i as int] == e@);
            assert(es.take(i + 1).last() == e@);
            assert(es.take(i + 1).drop_last() =~= es.take(i as int));
            l.add_source(rules, &e.name, e.d_type, &e.overlay);
            i += 1;
        }
        assert(es.take(es.len() as int) =~= es);
        let ghost first = l@;
        let ghost os = raw_entries(overlay@);
        let mut j: usize = 0;
        while j < overlay.len()
            invariant
                j <= overlay.len(),
                os == raw_entries(overlay@),
                rules.wf(),
                l.wf(),
                l@ == overlay_list(rules@, first, os.take(j as int)),
                entry_names(es) && entry_names(os) ==> children_below(l@),
            decreases overlay.len() - j,
        {
            let e = &overlay[j];
            assert(os[j as int] == e@);
            assert(os.take(j + 1).last() == e@);
            assert(os.take(j + 1).drop_last() =~= os.take(j as int));
            l.add_overlay(rules, &e.name, e.d_type);
            j += 1;
        }
        assert(os.take(os.len() as int) =~= os);
        l
    }

    /// How many entries are shown.
    pub fn len(&self) -> (n: usize)
        ensures
            n == self@.children.len(),
    {
        self.children.len()
    }
}

impl ShadowFs {
    /// The entry of a listing behind an offset: the directory itself, the one above it,
    /// then the entries that are shown. An entry that is given out gets an inode number.
    pub fn next_entry(&mut self, ino: u64, listing: &Listing, offset: i64) -> (out: Option<ListEntry>)
        requires
            old(self).wf(),
            old(self)@.inodes.next < u64::MAX,
        ensures
            final(self).wf(),
            match out {
                Some(e) => listed(old(self)@.inodes, ino, listing@, offset) == Some(e@),
                None => listed(old(self)@.inodes, ino, listing@, offset) is None,
            },
            final(self)@ == (Mount {
                inodes: numbers_after(old(self)@.inodes, listing@, offset),
                ..old(self)@
            }),
    {
        if offset == i64::MAX {
            return None;
        }
        let at: u64 = if offset < 0 {
            0
        } else {
            offset as u64
        };
        if at == 0 {
            return Some(
                ListEntry { ino, offset: 1, kind: FileKind::Directory, name: ".".to_owned() },
            );
        }
        if at == 1 {
            let up = self.parent_inode(&listing.dir);
            return Some(
                ListEntry { ino: up, offset: 2, kind: FileKind::Directory, name: "..".to_owned() },
            );
        }
        if at - 2 >= listing.children.len() as u64 {
            return None;
        }
        let i: usize = (at - 2) as usize;
        let child = &listing.children[i];
        assert(listing@.children[i as int] == child@);
        let number = self.inodes.get_or_assign_inode(&child.path);
        Some(
            ListEntry {
                ino: number,
                offset: offset + 1,
                kind: child.kind,
                name: child.name.clone(),
            },
        )
    }
}

} // verus!
