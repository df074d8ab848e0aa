use fuseshadow::attr::{FileKind, FileStat, DT_DIR, DT_LNK, EACCES, EINVAL, EIO, ENOENT};
use fuseshadow::found::FoundFile;
use fuseshadow::inodes::{InodeTable, ROOT_INO};
use fuseshadow::listing::{Listing, RawEntry};
use fuseshadow::load::ChildConfigs;
use fuseshadow::overlay::Overlay;
use fuseshadow::path::FsPath;
use fuseshadow::report::{class_name, mode_line, report_line};
use fuseshadow::rules::{PathClass, RuleSet, Stamp};
use fuseshadow::shadow_fs::{errno, place, ChangePlan, CreatePlan, Root, ShadowFs};
use std::path::Path;

const SOURCE: &str = "/outer/source";
const MOUNT: &str = "/mnt/view";
const DT_REG: u8 = 8;

fn path(text: &str) -> FsPath {
    FsPath::from_bytes(text.as_bytes())
}

fn text(p: &FsPath) -> String {
    String::from_utf8(p.as_bytes().to_vec()).unwrap()
}

fn found(base: &str, rel: &str, content: &str) -> FoundFile {
    let file = path(base).join(&path(rel));
    FoundFile {
        dir: file.parent().unwrap(),
        name: file.file_name().unwrap(),
        content: Some(content.as_bytes().to_vec()),
    }
}

fn stamp(n: i64) -> Stamp {
    Stamp { timed: true, secs: n, nanos: 0, size: 0 }
}

fn rules(files: &[(&str, &str)], case_sensitive: bool) -> RuleSet {
    let tree: Vec<FoundFile> = files.iter().map(|(r, c)| found(SOURCE, r, c)).collect();
    match RuleSet::load(
        &path(SOURCE),
        &vec![],
        &tree,
        stamp(0),
        case_sensitive,
        ChildConfigs::Compose,
        &None,
    ) {
        Ok(r) => r,
        Err(e) => panic!("{}", e.describe()),
    }
}

fn mount(files: &[(&str, &str)], case_sensitive: bool) -> ShadowFs {
    ShadowFs::new(path(SOURCE), path(MOUNT), rules(files, case_sensitive), 3)
}

fn stat(mode: u32) -> Option<FileStat> {
    Some(FileStat {
        mode,
        size: 5,
        blocks: 1,
        atime: 0,
        atime_nsec: 0,
        mtime: 0,
        mtime_nsec: 0,
        ctime: 0,
        ctime_nsec: 0,
        nlink: 1,
        uid: 0,
        gid: 0,
        rdev: 0,
    })
}

const FILE: u32 = 0o100644;
const DIR: u32 = 0o040755;

fn policy() -> ShadowFs {
    mount(
        &[
            (".gitignore", ".env\n*.key\nsecrets/\n"),
            (".shadowconfig", "[ignore]\npatterns = [\".git\"]\n[writable]\npatterns = [\".env\"]\n"),
        ],
        true,
    )
}

#[test]
fn lookup_shows_what_the_class_allows() {
    let mut fs = policy();
    let hidden = fs.lookup(&path(".git"), &stat(DIR), &None);
    assert_eq!(hidden, Err(ENOENT));
    assert_eq!(fs.lookup(&path(".shadowconfig"), &stat(FILE), &stat(FILE)), Err(ENOENT));
    let blocked = fs.lookup(&path("id.key"), &stat(FILE), &None).unwrap();
    assert_eq!((blocked.ino, blocked.perm, blocked.kind), (2, 0, FileKind::RegularFile));
    let plain = fs.lookup(&path("main.rs"), &stat(FILE), &None).unwrap();
    assert_eq!((plain.ino, plain.perm), (3, 0o644));
    assert_eq!(fs.lookup(&path("id.key"), &stat(FILE), &None).unwrap().ino, 2);
    assert_eq!(fs.lookup(&path("gone.rs"), &None, &stat(FILE)), Err(ENOENT));
    assert_eq!(fs.lookup(&path(".env"), &stat(FILE), &None), Err(ENOENT));
    let made = fs.lookup(&path(".env"), &stat(FILE), &stat(0o100600)).unwrap();
    assert_eq!((made.ino, made.perm), (4, 0o600));
    let gi = fs.lookup(&path(".gitignore"), &stat(FILE), &None).unwrap();
    assert_eq!(gi.perm, 0o644);
    let dir = fs.lookup(&path("secrets"), &stat(DIR), &None).unwrap();
    assert_eq!((dir.perm, dir.kind), (0, FileKind::Directory));
}

#[test]
fn getattr_shows_what_lookup_shows() {
    let fs = policy();
    assert_eq!(fs.getattr(9, &path(".git"), &stat(DIR), &None), Err(ENOENT));
    assert_eq!(fs.getattr(9, &path("a.key"), &stat(FILE), &None).unwrap().perm, 0);
    assert_eq!(fs.getattr(9, &path("a.rs"), &stat(FILE), &None).unwrap().ino, 9);
    assert_eq!(fs.getattr(9, &path("a.rs"), &None, &None), Err(ENOENT));
    assert_eq!(fs.getattr(9, &path(".env"), &stat(FILE), &None), Err(ENOENT));
    assert_eq!(fs.getattr(1, &path(""), &stat(DIR), &None).unwrap().perm, 0o755);
}

#[test]
fn open_answers_by_class() {
    let fs = policy();
    assert_eq!(fs.open(&path(".git"), libc::O_RDONLY), Err(ENOENT));
    assert_eq!(fs.open(&path("a.key"), libc::O_RDONLY), Err(EACCES));
    assert_eq!(fs.open(&path(".env"), libc::O_RDWR), Ok(Root::Overlay));
    assert_eq!(fs.open(&path(".gitignore"), libc::O_RDONLY), Ok(Root::Source));
    assert_eq!(fs.open(&path(".gitignore"), libc::O_WRONLY), Err(EACCES));
    assert_eq!(fs.open(&path(".gitignore"), libc::O_RDWR), Err(EACCES));
    assert_eq!(fs.open(&path("a.rs"), libc::O_RDWR), Ok(Root::Source));
}

#[test]
fn create_answers_by_class() {
    let fs = policy();
    assert_eq!(fs.create(&path(".git"), 0o644, 0), Err(ENOENT));
    assert_eq!(fs.create(&path("a.key"), 0o644, 0), Err(EACCES));
    assert_eq!(fs.create(&path("sub/.gitignore"), 0o644, 0), Err(EACCES));
    assert_eq!(
        fs.create(&path("a.rs"), 0o100644, 0),
        Ok(CreatePlan { root: Root::Source, flags: libc::O_RDWR | libc::O_CREAT, mode: 0o644 })
    );
    assert_eq!(
        fs.create(&path(".env"), 0o600, libc::O_TRUNC | libc::O_WRONLY),
        Ok(CreatePlan {
            root: Root::Overlay,
            flags: libc::O_RDWR | libc::O_CREAT | libc::O_TRUNC,
            mode: 0o600
        })
    );
}

#[test]
fn setattr_answers_by_class() {
    let fs = policy();
    assert_eq!(fs.setattr(&path(".git"), &stat(DIR), None), Err(ENOENT));
    assert_eq!(fs.setattr(&path("a.key"), &stat(FILE), Some(0)), Err(EACCES));
    assert_eq!(fs.setattr(&path(".gitignore"), &stat(FILE), None), Err(EACCES));
    assert_eq!(
        fs.setattr(&path("a.rs"), &stat(FILE), None),
        Ok(ChangePlan { root: Root::Source, flags: libc::O_RDONLY })
    );
    assert_eq!(
        fs.setattr(&path(".env"), &stat(FILE), Some(7)),
        Ok(ChangePlan { root: Root::Overlay, flags: libc::O_RDWR })
    );
    assert_eq!(fs.setattr(&path("secrets"), &stat(DIR), None), Err(EACCES));
    assert!(fs.setattr(&path("secrets"), &stat(FILE), None).is_ok());
}

#[test]
fn directories_are_made_and_removed_where_they_pass_through() {
    let fs = policy();
    let made = fs.mkdir(&path("src/lib")).ok().unwrap();
    assert_eq!((text(&made.dir), made.name), ("src".to_string(), b"lib".to_vec()));
    let top = fs.rmdir(&path("src")).ok().unwrap();
    assert_eq!((text(&top.dir), top.name), ("".to_string(), b"src".to_vec()));
    assert_eq!(fs.mkdir(&path(".git")).err(), Some(ENOENT));
    assert_eq!(fs.mkdir(&path(".env")).err(), Some(ENOENT));
    assert_eq!(fs.mkdir(&path("secrets")).err(), Some(EACCES));
    assert_eq!(fs.rmdir(&path(".gitignore")).err(), Some(EACCES));
    assert_eq!(fs.mkdir(&path("")).err(), Some(EINVAL));
    assert_eq!(fs.rmdir(&path("a/..")).err(), Some(EINVAL));
}

#[test]
fn unlink_answers_by_class() {
    let fs = policy();
    assert_eq!(fs.unlink(&path(".shadowconfig")).err(), Some(ENOENT));
    assert_eq!(fs.unlink(&path("a.key")).err(), Some(EACCES));
    assert_eq!(fs.unlink(&path(".gitignore")).err(), Some(EACCES));
    let over = fs.unlink(&path("sub/.env")).ok().unwrap();
    assert_eq!(over.root, Root::Overlay);
    assert_eq!((text(&over.place.dir), over.place.name), ("sub".to_string(), b".env".to_vec()));
    assert_eq!(over.no_dir, Some(ENOENT));
    let plain = fs.unlink(&path("a.rs")).ok().unwrap();
    assert_eq!((plain.root, plain.no_dir), (Root::Source, None));
    assert_eq!(fs.unlink(&path("")).err(), Some(EINVAL));
}

#[test]
fn rename_needs_both_sides_to_pass_through() {
    let fs = policy();
    let ok = fs.rename(&path("a/b"), &path("c"), &stat(DIR), &None).ok().unwrap();
    assert!(ok.is_dir);
    assert_eq!((text(&ok.from.dir), ok.from.name), ("a".to_string(), b"b".to_vec()));
    assert_eq!((text(&ok.to.dir), ok.to.name), ("".to_string(), b"c".to_vec()));
    let file = fs.rename(&path("x"), &path("y"), &stat(FILE), &stat(FILE)).ok().unwrap();
    assert!(!file.is_dir);
    let err = |a: &str, b: &str| fs.rename(&path(a), &path(b), &stat(FILE), &None).err();
    assert_eq!(err("a.key", "b"), Some(EACCES));
    assert_eq!(err("a", "b.key"), Some(EACCES));
    assert_eq!(err(".env", "b"), Some(EACCES));
    assert_eq!(err(".gitignore", "b"), Some(EACCES));
    assert_eq!(err(".git", "b"), Some(ENOENT));
    assert_eq!(err("a.key", ".shadowconfig"), Some(ENOENT));
    assert_eq!(err("", "b"), Some(EINVAL));
    assert_eq!(err("a", "b/.."), Some(EINVAL));
}

#[test]
fn links_lead_into_the_mount() {
    let fs = policy();
    assert_eq!(text(&fs.link_target(b"/outer/source/a/b")), "/mnt/view/a/b");
    assert_eq!(text(&fs.link_target(b"/outer/sourcery")), "/outer/sourcery");
    assert_eq!(text(&fs.link_target(b"/outer/source")), "/mnt/view/");
    assert_eq!(text(&fs.link_target(b"../x")), "../x");
    assert_eq!(text(&fs.link_target(b"/etc/hosts")), "/etc/hosts");
    assert_eq!(fs.readlink(&path(".git")).err(), Some(ENOENT));
    assert_eq!(fs.readlink(&path(".env")).err(), Some(ENOENT));
    assert_eq!(fs.readlink(&path("a.key")).err(), Some(EACCES));
    assert_eq!(fs.readlink(&path("")).err(), Some(ENOENT));
    assert_eq!(fs.readlink(&path("a/link")).ok().unwrap().name, b"link".to_vec());
    assert!(fs.readlink(&path(".gitignore")).is_ok());
}

#[test]
fn paths_are_found_by_inode() {
    let mut fs = policy();
    assert_eq!(text(&fs.path(ROOT_INO).unwrap()), "");
    assert_eq!(fs.path(2).err(), Some(ENOENT));
    assert_eq!(text(&fs.child(ROOT_INO, b"src").unwrap()), "src");
    assert_eq!(fs.child(7, b"src").err(), Some(ENOENT));
    let src = fs.made(&path("src"), &stat(DIR).unwrap());
    assert_eq!(src.ino, 2);
    assert_eq!(text(&fs.child(2, b"main.rs").unwrap()), "src/main.rs");
    fs.removed(&path("src"));
    assert_eq!(fs.path(2).err(), Some(ENOENT));
}

#[test]
fn errors_without_a_number_are_io_errors() {
    assert_eq!(errno(Some(17)), 17);
    assert_eq!(errno(None), EIO);
}

#[test]
fn listing_shows_what_the_class_allows() {
    let mut fs = policy();
    let mut l = Listing::new(&path(""));
    let entries: [(&[u8], u8, Option<FileStat>); 9] = [
        (b".", DT_DIR, None),
        (b"..", DT_DIR, None),
        (b".git", DT_DIR, None),
        (b".env", DT_REG, None),
        (b"a.key", DT_REG, None),
        (b"sub", DT_DIR, None),
        (b"link", DT_LNK, None),
        (b".gitignore", DT_REG, None),
        (b".shadowconfig", DT_REG, None),
    ];
    for (name, kind, overlay) in entries {
        l.add_source(&fs.rules, name, kind, &overlay);
    }
    assert_eq!(l.len(), 4);
    l.add_overlay(&fs.rules, b"..", DT_DIR);
    l.add_overlay(&fs.rules, b"sub", DT_DIR);
    l.add_overlay(&fs.rules, b"stray.rs", DT_REG);
    l.add_overlay(&fs.rules, b".env", DT_REG);
    assert_eq!(l.len(), 5);
    let mut out = Vec::new();
    let mut offset = 0;
    while let Some(e) = fs.next_entry(ROOT_INO, &l, offset) {
        offset = e.offset;
        out.push((e.ino, e.offset, e.kind, e.name));
    }
    let want = [
        (1, 1, FileKind::Directory, "."),
        (1, 2, FileKind::Directory, ".."),
        (2, 3, FileKind::RegularFile, "a.key"),
        (3, 4, FileKind::Directory, "sub"),
        (4, 5, FileKind::Symlink, "link"),
        (5, 6, FileKind::RegularFile, ".gitignore"),
        (6, 7, FileKind::RegularFile, ".env"),
    ];
    assert_eq!(out.len(), want.len());
    for (got, want) in out.iter().zip(want) {
        assert_eq!((got.0, got.1, got.2, got.3.as_str()), want);
    }
    let e = fs.next_entry(ROOT_INO, &l, -3).unwrap();
    assert_eq!(e.name, ".");
    assert!(fs.next_entry(ROOT_INO, &l, 7).is_none());
    assert!(fs.next_entry(ROOT_INO, &l, i64::MAX).is_none());
}

#[test]
fn listing_is_built_from_both_trees() {
    let mut fs = policy();
    let raw = |name: &str, d_type: u8, overlay: Option<FileStat>| RawEntry {
        name: name.as_bytes().to_vec(),
        d_type,
        overlay,
    };
    let source = vec![
        raw(".", DT_DIR, None),
        raw(".env", DT_REG, stat(FILE)),
        raw(".git", DT_DIR, None),
        raw("a.key", DT_REG, None),
        raw("main.rs", DT_REG, None),
    ];
    let overlay = vec![
        raw(".env", DT_REG, stat(FILE)),
        raw("main.rs", DT_REG, stat(FILE)),
        raw("..", DT_DIR, None),
    ];
    let l = Listing::build(&fs.rules, &path(""), &source, &overlay);
    let mut names = Vec::new();
    let mut offset = 2;
    while let Some(e) = fs.next_entry(ROOT_INO, &l, offset) {
        offset = e.offset;
        names.push(e.name);
    }
    assert_eq!(names, vec![".env", "a.key", "main.rs"]);
    let before = vec![raw(".env", DT_REG, None)];
    let later = Listing::build(&fs.rules, &path(""), &before, &overlay);
    assert_eq!(later.len(), 1);
}

#[test]
fn listing_of_a_subdirectory_leads_up() {
    let mut fs = policy();
    let sub = fs.made(&path("sub"), &stat(DIR).unwrap());
    let deep = fs.made(&path("sub/deep"), &stat(DIR).unwrap());
    let l = Listing::new(&path("sub/deep"));
    assert_eq!(fs.next_entry(deep.ino, &l, 0).unwrap().ino, deep.ino);
    assert_eq!(fs.next_entry(deep.ino, &l, 1).unwrap().ino, sub.ino);
    let stray = Listing::new(&path("unknown/dir"));
    assert_eq!(fs.next_entry(50, &stray, 1).unwrap().ino, ROOT_INO);
}

#[test]
fn listing_shows_an_overlay_file_once_it_is_there() {
    let fs = policy();
    let mut l = Listing::new(&path("sub"));
    l.add_source(&fs.rules, b".env", DT_REG, &stat(DIR));
    assert_eq!(text(&l.entry_path(b".env")), "sub/.env");
    l.add_overlay(&fs.rules, b".env", DT_REG);
    assert_eq!(l.len(), 1);
}

#[test]
fn listing_replaces_what_is_no_text() {
    let mut fs = policy();
    let mut l = Listing::new(&path(""));
    l.add_source(&fs.rules, b"\xff.rs", DT_REG, &None);
    let e = fs.next_entry(ROOT_INO, &l, 2).unwrap();
    assert_eq!(e.name, "\u{fffd}.rs");
    assert_eq!(text(&fs.path(e.ino).unwrap()), "\u{fffd}.rs");
}

#[test]
fn rename_dir_keeps_inodes_of_children() {
    let mut t = InodeTable::new();
    let dir = t.get_or_assign_inode(&path("mydir"));
    let child = t.get_or_assign_inode(&path("mydir/child.txt"));
    let deep = t.get_or_assign_inode(&path("mydir/nested/deep.txt"));
    let other = t.get_or_assign_inode(&path("mydirectory"));
    t.rename(&path("mydir"), &path("renamed"), true);
    assert_eq!(text(&t.path(dir).unwrap()), "renamed");
    assert_eq!(text(&t.path(child).unwrap()), "renamed/child.txt");
    assert_eq!(text(&t.path(deep).unwrap()), "renamed/nested/deep.txt");
    assert_eq!(text(&t.path(other).unwrap()), "mydirectory");
    assert_eq!(t.find(&path("renamed/nested/deep.txt")), Some(deep));
    assert_eq!(t.find(&path("mydir")), None);
    assert_eq!(t.find(&path("mydir/child.txt")), None);
    assert!(t.get_or_assign_inode(&path("mydir")) > other);
}

#[test]
fn rename_over_a_path_takes_it_over() {
    let mut t = InodeTable::new();
    let a = t.get_or_assign_inode(&path("a"));
    let b = t.get_or_assign_inode(&path("b"));
    t.rename(&path("a"), &path("b"), false);
    assert_eq!(t.find(&path("b")), Some(a));
    assert_eq!(t.find(&path("a")), None);
    assert_eq!(text(&t.path(b).unwrap()), "b");
    t.rename(&path("b"), &path("b"), false);
    assert_eq!(t.find(&path("b")), Some(a));
    t.rename(&path("never"), &path("seen"), true);
    assert_eq!(t.find(&path("seen")), None);
}

#[test]
fn file_rename_leaves_paths_below_alone() {
    let mut t = InodeTable::new();
    let below = t.get_or_assign_inode(&path("a/b"));
    t.rename(&path("a"), &path("c"), false);
    assert_eq!(t.find(&path("a/b")), Some(below));
}

#[test]
fn removed_inode_is_not_reused() {
    let mut t = InodeTable::new();
    let a = t.get_or_assign_inode(&path("a"));
    t.remove_inode(&path("a"));
    t.remove_inode(&path("a"));
    assert!(t.path(a).is_none());
    let again = t.get_or_assign_inode(&path("a"));
    assert_ne!(a, again);
    assert!(t.has_room());
}

#[test]
fn resolve_should_return_path_inside_temp_dir() {
    let base = tempfile::TempDir::new().unwrap();
    let overlay = Overlay::new(path(base.path().to_str().unwrap()));
    let p = overlay.resolve(&path("sub/file.txt"));
    assert!(p.starts_with(overlay.base_path()));
    assert!(Path::new(&text(&p)).ends_with("sub/file.txt"));
    assert_eq!(
        text(&overlay.dir_of(&path("sub/file.txt")).unwrap()),
        base.path().join("sub").to_str().unwrap()
    );
}

#[test]
fn entries_are_split_at_the_last_name() {
    let p = place(&path("a/b/c.txt")).ok().unwrap();
    assert_eq!((text(&p.dir), p.name), ("a/b".to_string(), b"c.txt".to_vec()));
    let top = place(&path("root.txt")).ok().unwrap();
    assert_eq!((text(&top.dir), top.name), ("".to_string(), b"root.txt".to_vec()));
    assert_eq!(place(&path("")).err(), Some(EINVAL));
}

#[test]
fn source_is_read_by_way_of_the_open_directory() {
    let fs = policy();
    assert_eq!(text(&fs.rules.io_path(&path("a"))), "/proc/self/fd/3/a");
    assert_eq!(text(&fs.rules.io_path(&path(""))), "/proc/self/fd/3/.");
    let direct = rules(&[], true);
    assert_eq!(text(&direct.io_path(&path("a"))), "/outer/source/a");
}

#[test]
fn rename_rereads_rule_files_by_way_of_the_open_directory() {
    let mut fs = mount(&[("mydir/.gitignore", "*.secret\n")], true);
    let files = vec![
        found("/proc/self/fd/3", "renamed/.gitignore", "*.secret\n"),
        found("/proc/self/fd/3", "renamed/deep/.shadowconfig", "[ignore]\npatterns = [\"x\"]\n"),
        found("/proc/self/fd/3", "renamed/bad/.shadowconfig", "= ["),
    ];
    let out = fs.rules.handle_directory_rename(
        &path("mydir"),
        &path("renamed"),
        &files,
        &None,
        "2026-05-04T14:32:00Z",
    );
    assert!(out.is_err());
    assert_eq!(fs.rules.classify(&path("renamed/data.secret"), false), PathClass::Blocked);
    assert_eq!(fs.rules.classify(&path("renamed/code.rs"), false), PathClass::Passthrough);
    assert_eq!(fs.rules.classify(&path("renamed/deep/x"), false), PathClass::Hidden);
    assert_eq!(fs.rules.classify(&path("renamed/x"), false), PathClass::Passthrough);
    assert_eq!(fs.rules.classify(&path("mydir/data.secret"), false), PathClass::Passthrough);
}

#[test]
fn dry_run_lines() {
    assert_eq!(report_line(PathClass::Blocked, &path("a/b.key")), "Blocked              a/b.key");
    assert_eq!(
        report_line(PathClass::WritableOverlay, &path(".env")),
        format!("{:<20} {}", "WritableOverlay", ".env")
    );
    for c in [
        PathClass::Hidden,
        PathClass::Blocked,
        PathClass::WritableOverlay,
        PathClass::GitignoreFile,
        PathClass::Passthrough,
    ] {
        assert_eq!(class_name(c), format!("{c:?}"));
    }
    assert_eq!(mode_line(true), "Matching mode: case-sensitive");
    assert_eq!(mode_line(false), "Matching mode: case-insensitive (default)");
}

fn readable_and_writable(fs: &ShadowFs, rel: &str) -> bool {
    fs.open(&path(rel), libc::O_RDONLY) == Ok(Root::Source)
        && fs.open(&path(rel), libc::O_WRONLY) == Ok(Root::Source)
}

fn shown_perm(fs: &mut ShadowFs, rel: &str) -> u16 {
    fs.lookup(&path(rel), &stat(FILE), &None).unwrap().perm
}

#[test]
fn dropped_pattern_makes_file_readable_and_writable() {
    let mut fs = mount(
        &[
            (".gitignore", "*.out\n*.log\n"),
            (".shadowconfig", "[[gitignore_drop]]\npatterns = [\"*.out\"]\n"),
        ],
        false,
    );
    assert!(readable_and_writable(&fs, "build.out"));
    assert_eq!(shown_perm(&mut fs, "debug.log") & 0o777, 0);
    assert_eq!(fs.open(&path("debug.log"), libc::O_RDONLY), Err(EACCES));
}

#[test]
fn ignore_beats_dropped_gitignore_pattern() {
    let mut fs = mount(
        &[
            (".gitignore", "*.out\n"),
            (
                ".shadowconfig",
                "[ignore]\npatterns = [\"*.out\"]\n\n[[gitignore_drop]]\npatterns = [\"*.out\"]\n",
            ),
        ],
        false,
    );
    assert_eq!(fs.lookup(&path("test.out"), &stat(FILE), &None), Err(ENOENT));
    let mut l = Listing::new(&path(""));
    l.add_source(&fs.rules, b"test.out", DT_REG, &None);
    assert_eq!(l.len(), 0);
}

#[test]
fn drop_targeting_subdirectory_gitignore_only_affects_that_file() {
    let mut fs = mount(
        &[
            (".gitignore", "*.tmp\n"),
            ("sub/.gitignore", "*.tmp\n"),
            (
                ".shadowconfig",
                "[[gitignore_drop]]\ngitignore = \"sub/.gitignore\"\npatterns = [\"*.tmp\"]\n",
            ),
        ],
        false,
    );
    assert_eq!(shown_perm(&mut fs, "root.tmp") & 0o777, 0);
    assert_eq!(shown_perm(&mut fs, "sub/child.tmp") & 0o777, 0);
}

#[test]
fn drop_targeting_subdirectory_gitignore_unblocks_unique_pattern() {
    let mut fs = mount(
        &[
            (".gitignore", "*.log\n"),
            ("sub/.gitignore", "*.dat\n"),
            (
                ".shadowconfig",
                "[[gitignore_drop]]\ngitignore = \"sub/.gitignore\"\npatterns = [\"*.dat\"]\n",
            ),
        ],
        false,
    );
    assert!(readable_and_writable(&fs, "sub/data.dat"));
    assert_eq!(shown_perm(&mut fs, "app.log") & 0o777, 0);
}

#[test]
fn rename_preserves_protection_with_gitignore_drop() {
    let config = "[[gitignore_drop]]\npatterns = [\"*.out\"]\n";
    let mut fs = mount(&[(".gitignore", "*.secret\n*.out\n"), (".shadowconfig", config)], false);
    assert!(readable_and_writable(&fs, "proj/build.out"));
    assert!(readable_and_writable(&fs, "proj/code.rs"));
    assert_eq!(shown_perm(&mut fs, "proj/api.secret") & 0o777, 0);
    let plan =
        fs.rename(&path("proj"), &path("proj_renamed"), &stat(DIR), &None).ok().unwrap();
    fs.renamed(&path("proj"), &path("proj_renamed"), plan.is_dir);
    let text = fs
        .rules
        .handle_directory_rename(
            &path("proj"),
            &path("proj_renamed"),
            &vec![],
            &Some(config.as_bytes().to_vec()),
            "2026-05-04T14:32:00Z",
        )
        .unwrap();
    assert!(text.ends_with(&format!("]\n\n{config}")));
    fs.rules.rename_recorded(&path("proj"), &path("proj_renamed"), stamp(1));
    assert_eq!(shown_perm(&mut fs, "proj_renamed/api.secret") & 0o777, 0);
    assert_eq!(fs.open(&path("proj_renamed/api.secret"), libc::O_RDONLY), Err(EACCES));
    assert!(readable_and_writable(&fs, "proj_renamed/code.rs"));
    assert!(readable_and_writable(&fs, "proj_renamed/build.out"));
}

#[test]
fn case_insensitive_gitignore_drop_e2e() {
    let fs = mount(
        &[
            (".gitignore", "*.out\n"),
            (".shadowconfig", "[[gitignore_drop]]\npatterns = [\"*.out\"]\n"),
        ],
        false,
    );
    assert!(readable_and_writable(&fs, "BUILD.Out"));
}

#[test]
fn shadowconfig_with_gitignore_drop_is_hidden() {
    let mut fs = mount(
        &[
            (".gitignore", "*.out\n"),
            (".shadowconfig", "[[gitignore_drop]]\npatterns = [\"*.out\"]\n"),
        ],
        false,
    );
    assert_eq!(fs.lookup(&path(".shadowconfig"), &stat(FILE), &None), Err(ENOENT));
    let mut l = Listing::new(&path(""));
    l.add_source(&fs.rules, b".shadowconfig", DT_REG, &None);
    assert_eq!(l.len(), 0);
    l.add_source(&fs.rules, b"hello.txt", DT_REG, &None);
    assert_eq!(l.len(), 1);
}

fn run(fs: &mut ShadowFs, ino: u64, l: &Listing, from: i64) -> Vec<(u64, i64, String)> {
    let mut out = Vec::new();
    let mut offset = from;
    while let Some(e) = fs.next_entry(ino, l, offset) {
        offset = e.offset;
        out.push((e.ino, e.offset, e.name));
    }
    out
}

#[test]
fn a_listing_can_be_taken_up_again() {
    let mut fs = policy();
    let sub = fs.made(&path("sub"), &stat(DIR).unwrap());
    let deep = fs.made(&path("sub/deep"), &stat(DIR).unwrap());
    let mut l = Listing::new(&path("sub/deep"));
    for name in ["one", "two", "three"] {
        l.add_source(&fs.rules, name.as_bytes(), DT_REG, &None);
    }
    let first = run(&mut fs, deep.ino, &l, 0);
    assert_eq!(first.len(), 5);
    assert_eq!(first[1], (sub.ino, 2, "..".to_string()));
    for k in 0..=5 {
        assert_eq!(run(&mut fs, deep.ino, &l, k as i64), first[k..], "{k}");
    }
}

#[test]
fn an_inode_shows_what_its_path_was_looked_up_with() {
    let mut fs = policy();
    for rel in ["main.rs", "a.key", ".gitignore", "sub/x", "main.rs"] {
        let a = fs.lookup(&path(rel), &stat(FILE), &None).unwrap();
        let known = fs.path(a.ino).unwrap();
        assert_eq!(text(&known), rel);
        let b = fs.getattr(a.ino, &known, &stat(FILE), &None).unwrap();
        assert_eq!((a.ino, a.perm, a.size, a.nlink), (b.ino, b.perm, b.size, b.nlink));
    }
    assert_eq!(fs.path(99).err(), Some(ENOENT));
}

#[test]
fn a_listing_shows_each_name_once() {
    let fs = policy();
    let raw = |name: &str| RawEntry {
        name: name.as_bytes().to_vec(),
        d_type: DT_REG,
        overlay: stat(FILE),
    };
    let source = vec![raw(".env"), raw("main.rs")];
    let overlay = vec![raw("main.rs"), raw(".env")];
    let l = Listing::build(&fs.rules, &path(""), &source, &overlay);
    assert_eq!(l.len(), 2);
}

#[test]
fn a_listing_with_names_that_are_no_text_can_be_taken_up_again() {
    let mut fs = policy();
    let sub = fs.made(&path("sub"), &stat(DIR).unwrap());
    let raw = |name: &[u8]| RawEntry { name: name.to_vec(), d_type: DT_REG, overlay: None };
    let source = vec![raw(b"\xff"), raw(b"."), raw(b"a\xc3"), raw(b"ok")];
    let l = Listing::build(&fs.rules, &path("sub"), &source, &vec![]);
    let first = run(&mut fs, sub.ino, &l, 0);
    let names: Vec<&str> = first.iter().map(|e| e.2.as_str()).collect();
    assert_eq!(names, [".", "..", "\u{fffd}", "a\u{fffd}", "ok"]);
    for k in 0..=first.len() {
        assert_eq!(run(&mut fs, sub.ino, &l, k as i64), first[k..], "{k}");
    }
    assert_eq!(text(&l.entry_path(b"\xff")), "sub/\u{fffd}");
}

#[test]
fn a_directory_can_be_made_again() {
    let mut fs = policy();
    let dir = path("fresh");
    assert!(fs.mkdir(&dir).is_ok());
    let first = fs.made(&dir, &stat(DIR).unwrap()).ino;
    assert!(fs.rmdir(&dir).is_ok());
    fs.removed(&dir);
    assert_eq!(fs.path(first).err(), Some(ENOENT));
    assert!(fs.mkdir(&dir).is_ok());
    assert!(fs.made(&dir, &stat(DIR).unwrap()).ino > first);
}
