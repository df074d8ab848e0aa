//! What holds of file attributes, and of the numbers by which Linux speaks of files.

use crate::attr::{
    asks_write, attr_of, is_dir, is_some_dir, kind_of, time_fits, time_of, times_fit, FileKind,
    FileStat, FileTime, DT_DIR, DT_LNK, EACCES, EINVAL, EIO, ENOENT, NANOS_PER_SEC, O_ACCMODE,
    O_CREAT, O_RDONLY, O_RDWR, O_TRUNC, O_WRONLY, PERM_BITS, S_IFDIR, S_IFLNK, S_IFMT,
};
use crate::inodes::ROOT_INO;
use vstd::prelude::*;

verus! {

/// The numbers are those of Linux.
pub proof fn law_linux_numbers()
    ensures
        ENOENT == 2,
        EIO == 5,
        EACCES == 13,
        EINVAL == 22,
        O_ACCMODE == 3,
        O_RDONLY == 0,
        O_WRONLY == 1,
        O_RDWR == 2,
        O_CREAT == 64,
        O_TRUNC == 512,
        S_IFMT == 61440,
        S_IFDIR == 16384,
        S_IFLNK == 40960,
        DT_DIR == 4,
        DT_LNK == 10,
        PERM_BITS == 4095,
        NANOS_PER_SEC == 1_000_000_000,
        ROOT_INO == 1,
{
}

/// Flags ask for writing by their access mode alone, whatever other bits are set: where it
/// is write-only or read-write.
pub proof fn law_write_flags(flags: i32)
    ensures
        asks_write(flags) <==> flags & 3 == 1 || flags & 3 == 2,
        asks_write(flags) == asks_write(flags & 3),
        asks_write(1),
        asks_write(2),
        !asks_write(0),
        asks_write(flags | 0o2000) == asks_write(flags),
        asks_write(flags | 0o1000) == asks_write(flags),
        asks_write(flags | 0o100000) == asks_write(flags),
{
    assert((flags & 3) & 3 == flags & 3) by (bit_vector);
    assert(1i32 & 3 == 1 && 2i32 & 3 == 2 && 0i32 & 3 == 0) by (bit_vector);
    assert((flags | 0o2000) & 3 == flags & 3) by (bit_vector);
    assert((flags | 0o1000) & 3 == flags & 3) by (bit_vector);
    assert((flags | 0o100000) & 3 == flags & 3) by (bit_vector);
}

/// The kind of a file is told by the four bits of its mode above the permissions.
pub proof fn law_kind_bits(s: FileStat)
    ensures
        is_dir(s) <==> (s.mode / 4096) % 16 == 4,
        kind_of(s) == FileKind::Directory <==> (s.mode / 4096) % 16 == 4,
        kind_of(s) == FileKind::Symlink <==> (s.mode / 4096) % 16 == 10,
        kind_of(s) == FileKind::RegularFile <==> (s.mode / 4096) % 16 != 4 && (s.mode / 4096) % 16
            != 10,
        is_some_dir(Some(s)) == ((s.mode / 4096) % 16 == 4),
        !is_some_dir(None::<FileStat>),
{
    let m = s.mode;
    assert((m & 0o170000 == 0o040000) <==> (m / 4096) % 16 == 4) by (bit_vector);
    assert((m & 0o170000 == 0o120000) <==> (m / 4096) % 16 == 10) by (bit_vector);
}

/// A time is told as it is: no second and no nanosecond is lost, and fewer nanoseconds
/// than there are in a second are told. A time before 1970 counts as its start.
pub proof fn law_time_told(secs: i64, nsecs: i64)
    requires
        0 <= nsecs <= u32::MAX,
        time_fits(secs, nsecs),
    ensures
        time_of(secs, nsecs).nanos < 1_000_000_000,
        secs >= 0 ==> time_of(secs, nsecs).secs * 1_000_000_000 + time_of(secs, nsecs).nanos == secs
            * 1_000_000_000 + nsecs,
        secs >= 0 && nsecs < 1_000_000_000 ==> time_of(secs, nsecs).secs == secs && time_of(
            secs,
            nsecs,
        ).nanos == nsecs,
        secs < 0 ==> time_of(secs, nsecs).secs == 0 && time_of(secs, nsecs).nanos == 0,
{
    let n = nsecs as u32;
    assert(n == nsecs);
    if secs >= 0 {
        assert(n as int == (n as int / 1_000_000_000) * 1_000_000_000 + n as int % 1_000_000_000);
        assert((secs + n / NANOS_PER_SEC) as u64 == secs + n as int / 1_000_000_000);
    }
}

/// Every time that the system gives can be told, but for one at the very end of time.
pub proof fn law_times_fit(secs: i64, nsecs: i64)
    ensures
        secs < 0 ==> time_fits(secs, nsecs),
        0 <= nsecs < 1_000_000_000 ==> time_fits(secs, nsecs),
        0 <= nsecs <= u32::MAX ==> (time_fits(secs, nsecs) <==> secs < 0 || secs + nsecs
            / 1_000_000_000 <= i64::MAX),
{
    if 0 <= nsecs <= u32::MAX {
        assert(nsecs as u32 == nsecs);
    }
}

/// All times of a file that the system gives in order can be told.
pub proof fn law_file_times_fit(s: FileStat)
    requires
        0 <= s.atime_nsec < 1_000_000_000,
        0 <= s.mtime_nsec < 1_000_000_000,
        0 <= s.ctime_nsec < 1_000_000_000,
    ensures
        times_fit(s),
{
    law_times_fit(s.atime, s.atime_nsec);
    law_times_fit(s.mtime, s.mtime_nsec);
    law_times_fit(s.ctime, s.ctime_nsec);
}

/// The attributes of a file are what the system says of it: its length, its blocks, its
/// owner, its permissions, its kind and its links.
pub proof fn law_attributes(ino: u64, s: FileStat)
    ensures
        ({
            let a = attr_of(ino, s);
            &&& a.ino == ino
            &&& s.size >= 0 ==> a.size == s.size
            &&& s.blocks >= 0 ==> a.blocks == s.blocks
            &&& a.perm == s.mode % 4096
            &&& a.uid == s.uid
            &&& a.gid == s.gid
            &&& a.nlink == s.nlink % 0x1_0000_0000
            &&& a.rdev == s.rdev % 0x1_0000_0000
            &&& (a.kind == FileKind::Directory <==> (s.mode / 4096) % 16 == 4)
            &&& (a.kind == FileKind::Symlink <==> (s.mode / 4096) % 16 == 10)
            &&& a.crtime == (FileTime { secs: 0, nanos: 0 })
            &&& a.blksize == 512
            &&& a.flags == 0
        }),
{
    let m = s.mode;
    law_kind_bits(s);
    assert(m & 0o7777 == m % 4096) by (bit_vector);
    assert((m & PERM_BITS) as u16 == m % 4096);
    let (n, d) = (s.nlink, s.rdev);
    assert(n as u32 == n % 0x1_0000_0000) by (bit_vector);
    assert(d as u32 == d % 0x1_0000_0000) by (bit_vector);
}

/// The times of a file are told as the system gives them.
pub proof fn law_attribute_times(ino: u64, s: FileStat)
    requires
        0 <= s.atime && 0 <= s.atime_nsec < 1_000_000_000,
        0 <= s.mtime && 0 <= s.mtime_nsec < 1_000_000_000,
        0 <= s.ctime && 0 <= s.ctime_nsec < 1_000_000_000,
    ensures
        ({
            let a = attr_of(ino, s);
            &&& a.atime.secs == s.atime && a.atime.nanos == s.atime_nsec
            &&& a.mtime.secs == s.mtime && a.mtime.nanos == s.mtime_nsec
            &&& a.ctime.secs == s.ctime && a.ctime.nanos == s.ctime_nsec
        }),
{
    law_file_times_fit(s);
    law_time_told(s.atime, s.atime_nsec);
    law_time_told(s.mtime, s.mtime_nsec);
    law_time_told(s.ctime, s.ctime_nsec);
}

} // verus!
