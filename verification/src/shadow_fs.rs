//! The mount: what each request on it is answered, and what it does.

use crate::attr::{
    asks_write, attr_of, is_some_dir, is_write_flags, some_dir, some_times_fit, stat_to_attr,
    times_fit, FileAttr, FileStat, EACCES, EINVAL, EIO, ENOENT, O_CREAT, O_RDONLY, O_RDWR, O_TRUNC,
    PERM_BITS,
};
use crate::decimal::{decimal, push_decimal};
use crate::inodes::{root_only, InodeTable, Inodes, ROOT_INO};
use crate::path::{components, file_name, is_absolute, joined, parent, strip, FsPath};
use crate::rules::{PathClass, RuleSet, Rules};
use vstd::prelude::*;
use vstd::string::StringExecFns;
use vstd::utf8::encode_utf8;

verus! {

/// Where a file of the mount lives.
#[derive(Debug, Clone, Copy, PartialEq, Eq, Structural)]
pub enum Root {
    Source,
    Overlay,
}

/// An entry of a directory: the directory, and the name of the entry.
pub struct Place {
    pub dir: FsPath,
    pub name: Vec<u8>,
}

/// The model of an entry of a directory.
#[verifier::ext_equal]
pub struct Spot {
    pub dir: Seq<u8>,
    pub name: Seq<u8>,
}

impl View for Place {
    type V = Spot;

    open spec fn view(&self) -> Spot {
        Spot { dir: self.dir@, name: self.name@ }
    }
}

/// The entry that a path names.
pub open spec fn spot_of(rel: Seq<u8>) -> Option<Spot> {
    match file_name(rel) {
        Some(name) => Some(
            Spot {
                dir: match parent(rel) {
                    Some(p) => p,
                    None => Seq::<u8>::empty(),
                },
                name,
            },
        ),
        None => None,
    }
}

/// The entry that a path names; a path without a name is an invalid argument.
pub fn place(rel: &FsPath) -> (p: Result<Place, i32>)
    ensures
        match p {
            Ok(x) => spot_of(rel@) == Some(x@),
            Err(e) => e == EINVAL && spot_of(rel@) is None,
        },
{
    match rel.file_name() {
        Some(name) => {
            let dir = match rel.parent() {
                Some(d) => d,
                None => FsPath::new(),
            };
            Ok(Place { dir, name })
        },
        None => Err(EINVAL),
    }
}

/// The error that a request is answered: the system's, where it gave one.
pub fn errno(raw: Option<i32>) -> (e: i32)
    ensures
        e == (match raw {
            Some(r) => r,
            None => EIO,
        }),
{
    match raw {
        Some(r) => r,
        None => EIO,
    }
}

/// What is shown of a path: nothing where it is hidden, the file in the overlay where it
/// lives there, else the file in the source tree.
pub open spec fn shown(
    class: PathClass,
    source: Option<FileStat>,
    overlay: Option<FileStat>,
) -> Option<FileStat> {
    match class {
        PathClass::Hidden => None,
        PathClass::WritableOverlay => overlay,
        _ => source,
    }
}

/// The attributes that are shown of a file: a blocked one has no permissions.
pub open spec fn shown_attr(class: PathClass, ino: u64, s: FileStat) -> FileAttr {
    if class == PathClass::Blocked {
        FileAttr { perm: 0, ..attr_of(ino, s) }
    } else {
        attr_of(ino, s)
    }
}

/// The attributes that are shown of a path, or the error that asking for them is answered.
pub open spec fn attr_answer(
    r: Rules,
    ino: u64,
    rel: Seq<u8>,
    source: Option<FileStat>,
    overlay: Option<FileStat>,
) -> Result<FileAttr, i32> {
    let class = r.class_of(rel, is_some_dir(source));
    match shown(class, source, overlay) {
        Some(s) => Ok(shown_attr(class, ino, s)),
        None => Err(ENOENT),
    }
}

/// Where a file is opened, or the error that opening it is answered.
pub open spec fn open_answer(class: PathClass, flags: i32) -> Result<Root, i32> {
    match class {
        PathClass::Hidden => Err(ENOENT),
        PathClass::Blocked => Err(EACCES),
        PathClass::WritableOverlay => Ok(Root::Overlay),
        PathClass::GitignoreFile => if asks_write(flags) {
            Err(EACCES)
        } else {
            Ok(Root::Source)
        },
        PathClass::Passthrough => Ok(Root::Source),
    }
}

/// Where a file is created or changed, or the error that this is answered.
pub open spec fn write_answer(class: PathClass) -> Result<Root, i32> {
    match class {
        PathClass::Hidden => Err(ENOENT),
        PathClass::Blocked => Err(EACCES),
        PathClass::WritableOverlay => Ok(Root::Overlay),
        PathClass::GitignoreFile => Err(EACCES),
        PathClass::Passthrough => Ok(Root::Source),
    }
}

/// Whether a directory may be made or removed, or the error that this is answered.
pub open spec fn dir_answer(class: PathClass) -> Result<(), i32> {
    match class {
        PathClass::Passthrough => Ok(()),
        PathClass::Hidden => Err(ENOENT),
        PathClass::WritableOverlay => Err(ENOENT),
        PathClass::Blocked => Err(EACCES),
        PathClass::GitignoreFile => Err(EACCES),
    }
}

/// Whether a link may be read, or the error that this is answered.
pub open spec fn link_answer(class: PathClass) -> Result<(), i32> {
    match class {
        PathClass::Hidden => Err(ENOENT),
        PathClass::WritableOverlay => Err(ENOENT),
        PathClass::Blocked => Err(EACCES),
        PathClass::GitignoreFile => Ok(()),
        PathClass::Passthrough => Ok(()),
    }
}

/// Whether a path may be renamed to another, or the error that this is answered: what is
/// hidden does not exist, and anything else has to pass through on both sides.
pub open spec fn rename_answer(old_class: PathClass, new_class: PathClass) -> Result<(), i32> {
    if old_class == PathClass::Hidden || new_class == PathClass::Hidden {
        Err(ENOENT)
    } else if old_class == PathClass::Passthrough && new_class == PathClass::Passthrough {
        Ok(())
    } else {
        Err(EACCES)
    }
}

/// How a file is created.
#[derive(Debug, Clone, Copy, PartialEq, Eq, Structural)]
pub struct CreatePlan {
    pub root: Root,
    pub flags: i32,
    pub mode: u32,
}

/// The open flags with which a file is created.
pub open spec fn create_flags(flags: i32) -> i32 {
    if flags & O_TRUNC != 0 {
        O_RDWR | O_CREAT | O_TRUNC
    } else {
        O_RDWR | O_CREAT
    }
}

/// How the attributes of a file are changed: where it lives, and the flags to open it.
#[derive(Debug, Clone, Copy, PartialEq, Eq, Structural)]
pub struct ChangePlan {
    pub root: Root,
    pub flags: i32,
}

/// How a file is removed: where it lives, its entry there, and the error that is answered
/// in place of the system's where its directory cannot be opened.
pub struct UnlinkPlan {
    pub root: Root,
    pub place: Place,
    pub no_dir: Option<i32>,
}

/// How a path is renamed.
pub struct RenamePlan {
    pub from: Place,
    pub to: Place,
    pub is_dir: bool,
}

/// Where a link leads inside the mount: a target in the source tree is a target in the
/// mount.
pub open spec fn target_in_mount(target: Seq<u8>, source: Seq<u8>, mountpoint: Seq<u8>) -> Seq<u8> {
    if is_absolute(target) {
        match strip(target, source) {
            Some(rest) => joined(mountpoint, rest),
            None => target,
        }
    } else {
        target
    }
}

/// The path by which an open directory is read and written.
pub open spec fn fd_path(fd: nat) -> Seq<u8> {
    encode_utf8("/proc/self/fd/"@ + decimal(fd))
}

/// A mount.
pub struct ShadowFs {
    pub source: FsPath,
    pub mountpoint: FsPath,
    pub rules: RuleSet,
    pub inodes: InodeTable,
}

/// The model of a mount.
pub struct Mount {
    pub source: Seq<u8>,
    pub mountpoint: Seq<u8>,
    pub rules: Rules,
    pub inodes: Inodes,
}

impl View for ShadowFs {
    type V = Mount;

    open spec fn view(&self) -> Mount {
        Mount {
            source: self.source@,
            mountpoint: self.mountpoint@,
            rules: self.rules@,
            inodes: self.inodes@,
        }
    }
}

impl ShadowFs {
    /// The rules and the inode numbers are in order.
    pub open spec fn wf(&self) -> bool {
        self.rules.wf() && self.inodes.wf()
    }

    /// A new mount, whose source tree is read and written by way of an open directory.
    pub fn new(source: FsPath, mountpoint: FsPath, rules: RuleSet, fd: u32) -> (m: ShadowFs)
        requires
            rules.wf(),
        ensures
            m.wf(),
            m@ == (Mount {
                source: source@,
                mountpoint: mountpoint@,
                rules: Rules { io_root: Some(fd_path(fd as nat)), ..rules@ },
                inodes: root_only(),
            }),
    {
        let mut rules = rules;
        let mut text = String::new();
        proof {
            reveal_strlit("");
        }
        text.append("/proc/self/fd/");
        push_decimal(&mut text, fd);
        assert(text@ =~= "/proc/self/fd/"@ + decimal(fd as nat));
        rules.set_io_root(FsPath::from_bytes(text.as_str().as_bytes()));
        ShadowFs { source, mountpoint, rules, inodes: InodeTable::new() }
    }

    /// The path that an inode number stands for.
    pub fn path(&self, ino: u64) -> (p: Result<FsPath, i32>)
        ensures
            match p {
                Ok(q) => self@.inodes.paths.contains_key(ino) && q@ == self@.inodes.paths[ino],
                Err(e) => e == ENOENT && !self@.inodes.paths.contains_key(ino),
            },
    {
        match self.inodes.path(ino) {
            Some(p) => Ok(p),
            None => Err(ENOENT),
        }
    }

    /// The path of an entry in the directory that an inode number stands for.
    pub fn child(&self, ino: u64, name: &[u8]) -> (p: Result<FsPath, i32>)
        ensures
            match p {
                Ok(q) => self@.inodes.paths.contains_key(ino) && q@ == joined(
                    self@.inodes.paths[ino],
                    name@,
                ),
                Err(e) => e == ENOENT && !self@.inodes.paths.contains_key(ino),
            },
    {
        match self.inodes.path(ino) {
            Some(p) => Ok(p.join(&FsPath::from_bytes(name))),
            None => Err(ENOENT),
        }
    }

    /// The attributes that are shown of a file.
    fn show(class: PathClass, ino: u64, s: &FileStat) -> (a: FileAttr)
        requires
            times_fit(*s),
        ensures
            a == shown_attr(class, ino, *s),
    {
        let mut attr = stat_to_attr(ino, s);
        if class == PathClass::Blocked {
            attr.perm = 0;
        }
        attr
    }

    /// What is shown of a path.
    fn visible(
        class: PathClass,
        source: &Option<FileStat>,
        overlay: &Option<FileStat>,
    ) -> (s: Option<FileStat>)
        ensures
            s == shown(class, *source, *overlay),
    {
        match class {
            PathClass::Hidden => None,
            PathClass::WritableOverlay => *overlay,
            _ => *source,
        }
    }

    /// Looks up a path, given what the source tree and the overlay have there.
    pub fn lookup(
        &mut self,
        rel: &FsPath,
        source: &Option<FileStat>,
        overlay: &Option<FileStat>,
    ) -> (out: Result<FileAttr, i32>)
        requires
            old(self).wf(),
            old(self)@.inodes.next < u64::MAX,
            some_times_fit(*source),
            some_times_fit(*overlay),
        ensures
            final(self).wf(),
            out == attr_answer(
                old(self)@.rules,
                old(self)@.inodes.number(rel@),
                rel@,
                *source,
                *overlay,
            ),
            final(self)@ == (if out is Ok {
                Mount { inodes: old(self)@.inodes.assigned(rel@), ..old(self)@ }
            } else {
                old(self)@
            }),
    {
        let class = self.rules.classify(rel, some_dir(source));
        match Self::visible(class, source, overlay) {
            Some(s) => {
                let ino = self.inodes.get_or_assign_inode(rel);
                Ok(Self::show(class, ino, &s))
            },
            None => Err(ENOENT),
        }
    }

    /// The attributes of a path, given what the source tree and the overlay have there.
    pub fn getattr(
        &self,
        ino: u64,
        rel: &FsPath,
        source: &Option<FileStat>,
        overlay: &Option<FileStat>,
    ) -> (out: Result<FileAttr, i32>)
        requires
            self.wf(),
            some_times_fit(*source),
            some_times_fit(*overlay),
        ensures
            out == attr_answer(self@.rules, ino, rel@, *source, *overlay),
    {
        let class = self.rules.classify(rel, some_dir(source));
        match Self::visible(class, source, overlay) {
            Some(s) => Ok(Self::show(class, ino, &s)),
            None => Err(ENOENT),
        }
    }

    /// Where a file is opened.
    pub fn open(&self, rel: &FsPath, flags: i32) -> (out: Result<Root, i32>)
        requires
            self.wf(),
        ensures
            out == open_answer(self@.rules.class_of(rel@, false), flags),
    {
        match self.rules.classify(rel, false) {
            PathClass::Hidden => Err(ENOENT),
            PathClass::Blocked => Err(EACCES),
            PathClass::WritableOverlay => Ok(Root::Overlay),
            PathClass::GitignoreFile => if is_write_flags(flags) {
                Err(EACCES)
            } else {
                Ok(Root::Source)
            },
            PathClass::Passthrough => Ok(Root::Source),
        }
    }

    /// Where a file is created or changed.
    fn writable(class: PathClass) -> (out: Result<Root, i32>)
        ensures
            out == write_answer(class),
    {
        match class {
            PathClass::Hidden => Err(ENOENT),
            PathClass::Blocked => Err(EACCES),
            PathClass::WritableOverlay => Ok(Root::Overlay),
            PathClass::GitignoreFile => Err(EACCES),
            PathClass::Passthrough => Ok(Root::Source),
        }
    }

    /// How a file is created.
    pub fn create(&self, rel: &FsPath, mode: u32, flags: i32) -> (out: Result<CreatePlan, i32>)
        requires
            self.wf(),
        ensures
            match write_answer(self@.rules.class_of(rel@, false)) {
                Ok(root) => out == Ok::<CreatePlan, i32>(
                    CreatePlan { root, flags: create_flags(flags), mode: mode & PERM_BITS },
                ),
                Err(e) => out == Err::<CreatePlan, i32>(e),
            },
            out matches Ok(p) ==> p.mode == mode % 4096 && p.flags & 512 == flags & 512,
    {
        proof {
            assert(mode & 0o7777 == mode % 4096) by (bit_vector);
            assert(flags & 512 == 0 || flags & 512 == 512) by (bit_vector);
            assert((2i32 | 64) & 512 == 0 && (2i32 | 64 | 512) & 512 == 512) by (bit_vector);
        }
        match Self::writable(self.rules.classify(rel, false)) {
            Ok(root) => {
                let mut open_flags: i32 = O_RDWR | O_CREAT;
                if flags & O_TRUNC != 0 {
                    open_flags = open_flags | O_TRUNC;
                }
                Ok(CreatePlan { root, flags: open_flags, mode: mode & PERM_BITS })
            },
            Err(e) => Err(e),
        }
    }

    /// The attributes of a file that was made.
    pub fn made(&mut self, rel: &FsPath, stat: &FileStat) -> (attr: FileAttr)
        requires
            old(self).wf(),
            old(self)@.inodes.next < u64::MAX,
            times_fit(*stat),
        ensures
            final(self).wf(),
            attr == attr_of(old(self)@.inodes.number(rel@), *stat),
            final(self)@ == (Mount {
                inodes: old(self)@.inodes.assigned(rel@),
                ..old(self)@
            }),
    {
        let ino = self.inodes.get_or_assign_inode(rel);
        stat_to_attr(ino, stat)
    }

    /// How the attributes of a file are changed, given what the source tree has there and
    /// the new size, where one is asked for.
    pub fn setattr(
        &self,
        rel: &FsPath,
        source: &Option<FileStat>,
        size: Option<u64>,
    ) -> (out: Result<ChangePlan, i32>)
        requires
            self.wf(),
        ensures
            match write_answer(self@.rules.class_of(rel@, is_some_dir(*source))) {
                Ok(root) => out == Ok::<ChangePlan, i32>(
                    ChangePlan {
                        root,
                        flags: if size is Some {
                            O_RDWR
                        } else {
                            O_RDONLY
                        },
                    },
                ),
                Err(e) => out == Err::<ChangePlan, i32>(e),
            },
    {
        match Self::writable(self.rules.classify(rel, some_dir(source))) {
            Ok(root) => {
                let flags: i32 = if size.is_some() {
                    O_RDWR
                } else {
                    O_RDONLY
                };
                Ok(ChangePlan { root, flags })
            },
            Err(e) => Err(e),
        }
    }

    /// The entry of a directory that may be made or removed.
    fn dir_place(&self, rel: &FsPath) -> (out: Result<Place, i32>)
        requires
            self.wf(),
        ensures
            match dir_answer(self@.rules.class_of(rel@, true)) {
                Ok(_) => match spot_of(rel@) {
                    Some(s) => out is Ok && out->Ok_0@ == s,
                    None => out == Err::<Place, i32>(EINVAL),
                },
                Err(e) => out == Err::<Place, i32>(e),
            },
    {
        match self.rules.classify(rel, true) {
            PathClass::Passthrough => place(rel),
            PathClass::Hidden => Err(ENOENT),
            PathClass::WritableOverlay => Err(ENOENT),
            PathClass::Blocked => Err(EACCES),
            PathClass::GitignoreFile => Err(EACCES),
        }
    }

    /// Where a directory is made.
    pub fn mkdir(&self, rel: &FsPath) -> (out: Result<Place, i32>)
        requires
            self.wf(),
        ensures
            match dir_answer(self@.rules.class_of(rel@, true)) {
                Ok(_) => match spot_of(rel@) {
                    Some(s) => out is Ok && out->Ok_0@ == s,
                    None => out == Err::<Place, i32>(EINVAL),
                },
                Err(e) => out == Err::<Place, i32>(e),
            },
    {
        self.dir_place(rel)
    }

    /// Which directory is removed.
    pub fn rmdir(&self, rel: &FsPath) -> (out: Result<Place, i32>)
        requires
            self.wf(),
        ensures
            match dir_answer(self@.rules.class_of(rel@, true)) {
                Ok(_) => match spot_of(rel@) {
                    Some(s) => out is Ok && out->Ok_0@ == s,
                    None => out == Err::<Place, i32>(EINVAL),
                },
                Err(e) => out == Err::<Place, i32>(e),
            },
    {
        self.dir_place(rel)
    }

    /// Which file is removed.
    pub fn unlink(&self, rel: &FsPath) -> (out: Result<UnlinkPlan, i32>)
        requires
            self.wf(),
        ensures
            match write_answer(self@.rules.class_of(rel@, false)) {
                Ok(root) => match spot_of(rel@) {
                    Some(s) => out is Ok && out->Ok_0.root == root && out->Ok_0.place@ == s
                        && out->Ok_0.no_dir == (if root == Root::Overlay {
                        Some(ENOENT)
                    } else {
                        None
                    }),
                    None => out == Err::<UnlinkPlan, i32>(
                        if root == Root::Overlay {
                            ENOENT
                        } else {
                            EINVAL
                        },
                    ),
                },
                Err(e) => out == Err::<UnlinkPlan, i32>(e),
            },
    {
        match Self::writable(self.rules.classify(rel, false)) {
            Ok(root) => {
                let no_dir: Option<i32> = if root == Root::Overlay {
                    Some(ENOENT)
                } else {
                    None
                };
                match place(rel) {
                    Ok(p) => Ok(UnlinkPlan { root, place: p, no_dir }),
                    Err(e) => match no_dir {
                        Some(other) => Err(other),
                        None => Err(e),
                    },
                }
            },
            Err(e) => Err(e),
        }
    }

    /// Forgets a path that was removed.
    pub fn removed(&mut self, rel: &FsPath)
        requires
            old(self).wf(),
        ensures
            final(self).wf(),
            final(self)@ == (Mount {
                inodes: old(self)@.inodes.removed(rel@),
                ..old(self)@
            }),
    {
        self.inodes.remove_inode(rel);
    }

    /// How a path is renamed, given what the source tree has at both places.
    pub fn rename(
        &self,
        old_rel: &FsPath,
        new_rel: &FsPath,
        old_stat: &Option<FileStat>,
        new_stat: &Option<FileStat>,
    ) -> (out: Result<RenamePlan, i32>)
        requires
            self.wf(),
        ensures
            match rename_answer(
                self@.rules.class_of(old_rel@, is_some_dir(*old_stat)),
                self@.rules.class_of(new_rel@, is_some_dir(*new_stat)),
            ) {
                Ok(_) => match (spot_of(old_rel@), spot_of(new_rel@)) {
                    (Some(a), Some(b)) => out is Ok && out->Ok_0.from@ == a && out->Ok_0.to@ == b
                        && out->Ok_0.is_dir == is_some_dir(*old_stat),
                    _ => out == Err::<RenamePlan, i32>(EINVAL),
                },
                Err(e) => out == Err::<RenamePlan, i32>(e),
            },
    {
        let is_dir = some_dir(old_stat);
        let old_class = self.rules.classify(old_rel, is_dir);
        let new_class = self.rules.classify(new_rel, some_dir(new_stat));
        if old_class == PathClass::Hidden || new_class == PathClass::Hidden {
            return Err(ENOENT);
        }
        if !(old_class == PathClass::Passthrough && new_class == PathClass::Passthrough) {
            return Err(EACCES);
        }
        let from = match place(old_rel) {
            Ok(p) => p,
            Err(e) => {
                return Err(e);
            },
        };
        let to = match place(new_rel) {
            Ok(p) => p,
            Err(e) => {
                return Err(e);
            },
        };
        Ok(RenamePlan { from, to, is_dir })
    }

    /// Follows a rename that was made.
    pub fn renamed(&mut self, old_rel: &FsPath, new_rel: &FsPath, is_dir: bool)
        requires
            old(self).wf(),
            components(old_rel@).len() > 0,
        ensures
            final(self).wf(),
            final(self)@ == (Mount {
                inodes: old(self)@.inodes.renamed(old_rel@, new_rel@, is_dir),
                ..old(self)@
            }),
    {
        self.inodes.rename(old_rel, new_rel, is_dir);
    }

    /// Which link is read. One without a name does not exist.
    pub fn readlink(&self, rel: &FsPath) -> (out: Result<Place, i32>)
        requires
            self.wf(),
        ensures
            match link_answer(self@.rules.class_of(rel@, false)) {
                Ok(_) => match spot_of(rel@) {
                    Some(s) => out is Ok && out->Ok_0@ == s,
                    None => out == Err::<Place, i32>(ENOENT),
                },
                Err(e) => out == Err::<Place, i32>(e),
            },
    {
        match self.rules.classify(rel, false) {
            PathClass::Hidden => Err(ENOENT),
            PathClass::WritableOverlay => Err(ENOENT),
            PathClass::Blocked => Err(EACCES),
            PathClass::GitignoreFile => match place(rel) {
                Ok(p) => Ok(p),
                Err(_) => Err(ENOENT),
            },
            PathClass::Passthrough => match place(rel) {
                Ok(p) => Ok(p),
                Err(_) => Err(ENOENT),
            },
        }
    }

    /// Where a link leads inside the mount.
    pub fn link_target(&self, target: &[u8]) -> (out: FsPath)
        ensures
            out@ == target_in_mount(target@, self@.source, self@.mountpoint),
    {
        let path = FsPath::from_bytes(target);
        if path.is_absolute() {
            if let Some(rest) = path.strip_prefix(&self.source) {
                return self.mountpoint.join(&rest);
            }
        }
        path
    }

    /// The inode number of the directory above a path; the root is above itself.
    pub fn parent_inode(&self, rel: &FsPath) -> (ino: u64)
        requires
            self.wf(),
        ensures
            ino == parent_number(self@.inodes, rel@),
    {
        if rel.is_empty() {
            return ROOT_INO;
        }
        let up = match rel.parent() {
            Some(p) => p,
            None => FsPath::new(),
        };
        match self.inodes.find(&up) {
            Some(i) => i,
            None => ROOT_INO,
        }
    }
}

/// The inode number of the directory above a path; the root is above itself.
pub open spec fn parent_number(t: Inodes, rel: Seq<u8>) -> u64 {
    let up = match parent(rel) {
        Some(p) => p,
        None => Seq::<u8>::empty(),
    };
    if rel.len() > 0 && t.index.contains_key(components(up)) {
        t.index[components(up)]
    } else {
        ROOT_INO
    }
}

} // verus!
