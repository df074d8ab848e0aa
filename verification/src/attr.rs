//! File attributes, and the numbers by which Linux speaks of files and errors.

use vstd::prelude::*;

verus! {

/// No such file or directory.
pub const ENOENT: i32 = 2;

/// Input or output error.
pub const EIO: i32 = 5;

/// Permission denied.
pub const EACCES: i32 = 13;

/// Invalid argument.
pub const EINVAL: i32 = 22;

/// The bits of open flags that hold the access mode.
pub const O_ACCMODE: i32 = 3;

/// Open for reading.
pub const O_RDONLY: i32 = 0;

/// Open for writing.
pub const O_WRONLY: i32 = 1;

/// Open for reading and writing.
pub const O_RDWR: i32 = 2;

/// Create the file where it does not exist.
pub const O_CREAT: i32 = 64;

/// Cut the file to length zero.
pub const O_TRUNC: i32 = 512;

/// The bits of a mode that hold the kind of file.
pub const S_IFMT: u32 = 0o170000;

/// The kind of a directory.
pub const S_IFDIR: u32 = 0o040000;

/// The kind of a symbolic link.
pub const S_IFLNK: u32 = 0o120000;

/// The type of a directory entry that is a directory.
pub const DT_DIR: u8 = 4;

/// The type of a directory entry that is a symbolic link.
pub const DT_LNK: u8 = 10;

/// The bits of a mode that hold the permissions.
pub const PERM_BITS: u32 = 0o7777;

/// How many nanoseconds there are in a second.
pub const NANOS_PER_SEC: u32 = 1_000_000_000;

/// A time, counted from the start of 1970.
#[derive(Debug, Clone, Copy, PartialEq, Eq, Structural)]
pub struct FileTime {
    pub secs: u64,
    pub nanos: u32,
}

/// A kind of file.
#[derive(Debug, Clone, Copy, PartialEq, Eq, Structural)]
pub enum FileKind {
    Directory,
    Symlink,
    RegularFile,
}

/// What the system says of a file.
#[derive(Debug, Clone, Copy, PartialEq, Eq, Structural)]
pub struct FileStat {
    pub mode: u32,
    pub size: i64,
    pub blocks: i64,
    pub atime: i64,
    pub atime_nsec: i64,
    pub mtime: i64,
    pub mtime_nsec: i64,
    pub ctime: i64,
    pub ctime_nsec: i64,
    pub nlink: u64,
    pub uid: u32,
    pub gid: u32,
    pub rdev: u64,
}

/// What is said of a file inside the mount.
#[derive(Debug, Clone, Copy, PartialEq, Eq, Structural)]
pub struct FileAttr {
    pub ino: u64,
    pub size: u64,
    pub blocks: u64,
    pub atime: FileTime,
    pub mtime: FileTime,
    pub ctime: FileTime,
    pub crtime: FileTime,
    pub kind: FileKind,
    pub perm: u16,
    pub nlink: u32,
    pub uid: u32,
    pub gid: u32,
    pub rdev: u32,
    pub blksize: u32,
    pub flags: u32,
}

/// The start of 1970.
pub open spec fn epoch() -> FileTime {
    FileTime { secs: 0, nanos: 0 }
}

/// The time of a number of seconds and nanoseconds; whole seconds among the nanoseconds
/// are carried over. A time before 1970 counts as its start.
pub open spec fn time_of(secs: i64, nsecs: i64) -> FileTime {
    if secs >= 0 {
        let n = nsecs as u32;
        FileTime { secs: (secs + n / NANOS_PER_SEC) as u64, nanos: (n % NANOS_PER_SEC) as u32 }
    } else {
        epoch()
    }
}

/// The time can be told.
pub open spec fn time_fits(secs: i64, nsecs: i64) -> bool {
    secs >= 0 ==> secs + (nsecs as u32) / NANOS_PER_SEC <= i64::MAX
}

/// The time of a number of seconds and nanoseconds.
pub fn system_time(secs: i64, nsecs: i64) -> (t: FileTime)
    requires
        time_fits(secs, nsecs),
    ensures
        t == time_of(secs, nsecs),
{
    if secs >= 0 {
        let n: u32 = nsecs as u32;
        let whole: u32 = n / NANOS_PER_SEC;
        FileTime { secs: secs as u64 + whole as u64, nanos: n % NANOS_PER_SEC }
    } else {
        FileTime { secs: 0, nanos: 0 }
    }
}

/// Whether a file is a directory.
pub open spec fn is_dir(s: FileStat) -> bool {
    s.mode & S_IFMT == S_IFDIR
}

/// Whether a file is there and is a directory.
pub open spec fn is_some_dir(s: Option<FileStat>) -> bool {
    match s {
        Some(x) => is_dir(x),
        None => false,
    }
}

/// The kind of a file. What is neither a directory nor a link counts as a regular file.
pub open spec fn kind_of(s: FileStat) -> FileKind {
    if is_dir(s) {
        FileKind::Directory
    } else if s.mode & S_IFMT == S_IFLNK {
        FileKind::Symlink
    } else {
        FileKind::RegularFile
    }
}

/// The times of a file can be told.
pub open spec fn times_fit(s: FileStat) -> bool {
    &&& time_fits(s.atime, s.atime_nsec)
    &&& time_fits(s.mtime, s.mtime_nsec)
    &&& time_fits(s.ctime, s.ctime_nsec)
}

/// The times of a file can be told, where it is there.
pub open spec fn some_times_fit(s: Option<FileStat>) -> bool {
    match s {
        Some(x) => times_fit(x),
        None => true,
    }
}

/// Whether a time can be told.
fn fits(secs: i64, nsecs: i64) -> (yes: bool)
    ensures
        yes == time_fits(secs, nsecs),
{
    let whole: u32 = nsecs as u32 / NANOS_PER_SEC;
    secs < 0 || secs <= i64::MAX - whole as i64
}

/// Whether the times of a file can be told.
pub fn stat_times_fit(s: &FileStat) -> (yes: bool)
    ensures
        yes == times_fit(*s),
{
    fits(s.atime, s.atime_nsec) && fits(s.mtime, s.mtime_nsec) && fits(s.ctime, s.ctime_nsec)
}

/// What is said of a file inside the mount.
pub open spec fn attr_of(ino: u64, s: FileStat) -> FileAttr {
    FileAttr {
        ino,
        size: s.size as u64,
        blocks: s.blocks as u64,
        atime: time_of(s.atime, s.atime_nsec),
        mtime: time_of(s.mtime, s.mtime_nsec),
        ctime: time_of(s.ctime, s.ctime_nsec),
        crtime: epoch(),
        kind: kind_of(s),
        perm: (s.mode & PERM_BITS) as u16,
        nlink: s.nlink as u32,
        uid: s.uid,
        gid: s.gid,
        rdev: s.rdev as u32,
        blksize: 512,
        flags: 0,
    }
}

/// Whether a file is a directory.
pub fn stat_is_dir(s: &FileStat) -> (yes: bool)
    ensures
        yes == is_dir(*s),
{
    s.mode & S_IFMT == S_IFDIR
}

/// Whether a file is there and is a directory.
pub fn some_dir(s: &Option<FileStat>) -> (yes: bool)
    ensures
        yes == is_some_dir(*s),
{
    match s {
        Some(x) => stat_is_dir(x),
        None => false,
    }
}

/// What is said of a file inside the mount.
pub fn stat_to_attr(ino: u64, s: &FileStat) -> (a: FileAttr)
    requires
        times_fit(*s),
    ensures
        a == attr_of(ino, *s),
{
    let kind = if stat_is_dir(s) {
        FileKind::Directory
    } else if s.mode & S_IFMT == S_IFLNK {
        FileKind::Symlink
    } else {
        FileKind::RegularFile
    };
    FileAttr {
        ino,
        size: s.size as u64,
        blocks: s.blocks as u64,
        atime: system_time(s.atime, s.atime_nsec),
        mtime: system_time(s.mtime, s.mtime_nsec),
        ctime: system_time(s.ctime, s.ctime_nsec),
        crtime: FileTime { secs: 0, nanos: 0 },
        kind,
        perm: (s.mode & PERM_BITS) as u16,
        nlink: s.nlink as u32,
        uid: s.uid,
        gid: s.gid,
        rdev: s.rdev as u32,
        blksize: 512,
        flags: 0,
    }
}

/// Whether open flags ask for writing.
pub open spec fn asks_write(flags: i32) -> bool {
    flags & O_ACCMODE == O_WRONLY || flags & O_ACCMODE == O_RDWR
}

/// Whether open flags ask for writing.
pub fn is_write_flags(flags: i32) -> (yes: bool)
    ensures
        yes == asks_write(flags),
{
    let mode: i32 = flags & O_ACCMODE;
    mode == O_WRONLY || mode == O_RDWR
}

} // verus!
