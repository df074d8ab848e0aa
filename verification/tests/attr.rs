use fuseshadow::attr;
use fuseshadow::attr::{
    is_write_flags, some_dir, stat_is_dir, stat_times_fit, stat_to_attr, system_time, FileKind,
    FileStat, FileTime,
};
use fuseshadow::handles::HandleTable;

fn stat(mode: u32) -> FileStat {
    FileStat {
        mode,
        size: 11,
        blocks: 8,
        atime: 1,
        atime_nsec: 2,
        mtime: 3,
        mtime_nsec: 4,
        ctime: -5,
        ctime_nsec: 6,
        nlink: 1,
        uid: 1000,
        gid: 1001,
        rdev: 0,
    }
}

#[test]
fn numbers_are_those_of_the_system() {
    assert_eq!(attr::ENOENT, libc::ENOENT);
    assert_eq!(attr::EIO, libc::EIO);
    assert_eq!(attr::EACCES, libc::EACCES);
    assert_eq!(attr::EINVAL, libc::EINVAL);
    assert_eq!(attr::O_ACCMODE, libc::O_ACCMODE);
    assert_eq!(attr::O_RDONLY, libc::O_RDONLY);
    assert_eq!(attr::O_WRONLY, libc::O_WRONLY);
    assert_eq!(attr::O_RDWR, libc::O_RDWR);
    assert_eq!(attr::O_CREAT, libc::O_CREAT);
    assert_eq!(attr::O_TRUNC, libc::O_TRUNC);
    assert_eq!(attr::S_IFMT, libc::S_IFMT);
    assert_eq!(attr::S_IFDIR, libc::S_IFDIR);
    assert_eq!(attr::S_IFLNK, libc::S_IFLNK);
    assert_eq!(attr::DT_DIR, libc::DT_DIR);
    assert_eq!(attr::DT_LNK, libc::DT_LNK);
}

#[test]
fn times_before_the_epoch_are_the_epoch() {
    assert_eq!(system_time(-1, 999), FileTime { secs: 0, nanos: 0 });
    assert_eq!(system_time(7, 999_999_999), FileTime { secs: 7, nanos: 999_999_999 });
    assert_eq!(system_time(7, 2_000_000_001), FileTime { secs: 9, nanos: 1 });
    assert_eq!(system_time(0, -1), FileTime { secs: 4, nanos: 294_967_295 });
}

#[test]
fn times_that_cannot_be_told_are_known() {
    let mut s = stat(0o100644);
    assert!(stat_times_fit(&s));
    s.mtime = i64::MAX;
    assert!(stat_times_fit(&s));
    s.mtime_nsec = 1_000_000_000;
    assert!(!stat_times_fit(&s));
}

#[test]
fn attributes_of_a_file() {
    let a = stat_to_attr(42, &stat(0o100644));
    assert_eq!(a.ino, 42);
    assert_eq!(a.size, 11);
    assert_eq!(a.blocks, 8);
    assert_eq!(a.atime, FileTime { secs: 1, nanos: 2 });
    assert_eq!(a.mtime, FileTime { secs: 3, nanos: 4 });
    assert_eq!(a.ctime, FileTime { secs: 0, nanos: 0 });
    assert_eq!(a.crtime, FileTime { secs: 0, nanos: 0 });
    assert_eq!(a.kind, FileKind::RegularFile);
    assert_eq!(a.perm, 0o644);
    assert_eq!((a.nlink, a.uid, a.gid, a.rdev), (1, 1000, 1001, 0));
    assert_eq!((a.blksize, a.flags), (512, 0));
    assert_eq!(stat_to_attr(1, &stat(0o041755)).kind, FileKind::Directory);
    assert_eq!(stat_to_attr(1, &stat(0o041755)).perm, 0o1755);
    assert_eq!(stat_to_attr(1, &stat(0o120777)).kind, FileKind::Symlink);
    assert_eq!(stat_to_attr(1, &stat(0o010600)).kind, FileKind::RegularFile);
}

#[test]
fn directories_are_known_by_their_mode() {
    assert!(stat_is_dir(&stat(0o040755)));
    assert!(!stat_is_dir(&stat(0o060755)));
    assert!(some_dir(&Some(stat(0o040000))));
    assert!(!some_dir(&Some(stat(0o100000))));
    assert!(!some_dir(&None));
}

#[test]
fn flags_that_ask_for_writing() {
    assert!(!is_write_flags(libc::O_RDONLY));
    assert!(is_write_flags(libc::O_WRONLY));
    assert!(is_write_flags(libc::O_RDWR | libc::O_CLOEXEC));
    assert!(!is_write_flags(libc::O_RDONLY | libc::O_TRUNC | libc::O_APPEND));
}

#[test]
fn handles_are_given_out_once() {
    let mut t: HandleTable<&str> = HandleTable::new();
    assert!(t.has_room());
    let a = t.add("a");
    let b = t.add("b");
    assert_eq!((a, b), (1, 2));
    assert_eq!(t.get(a), Some(&"a"));
    assert_eq!(t.remove(a), Some("a"));
    assert_eq!(t.remove(a), None);
    assert_eq!(t.get(a), None);
    assert_eq!(t.add("c"), 3);
    assert_eq!(t.get(b), Some(&"b"));
}
