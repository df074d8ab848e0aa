use fuseshadow::matcher::DirMatcher;
use fuseshadow::path::FsPath;

fn path(text: &str) -> FsPath {
    FsPath::from_bytes(text.as_bytes())
}

fn file(content: &[u8], drops: &[&str], case_sensitive: bool) -> Option<DirMatcher> {
    let drops: Vec<String> = drops.iter().map(|d| d.to_string()).collect();
    DirMatcher::from_gitignore_file(&path("/R"), &Some(content.to_vec()), &drops, case_sensitive)
}

#[test]
fn a_matcher_counts_below_its_directory() {
    let m = file(b"*.log\n!keep.log\n/top\n", &[], true).unwrap();
    assert!(m.matches(&path("/R/a.log"), false));
    assert!(m.matches(&path("/R/sub/a.log"), false));
    assert!(!m.matches(&path("/R/keep.log"), false));
    assert!(!m.matches(&path("/elsewhere/a.log"), false));
    assert!(!m.matches(&path("/Rx/a.log"), false));
    assert!(m.matches(&path("/R/top"), false));
    assert!(!m.matches(&path("/R/sub/top"), false));
    assert!(!m.matches(&path("/R"), true));
    assert!(m.is_under(&path("/R/")));
    assert!(m.is_under(&path("/")));
    assert!(!m.is_under(&path("/R/sub")));
}

#[test]
fn what_lies_in_an_ignored_directory_is_ignored() {
    let m = file(b"build/\n", &[], true).unwrap();
    assert!(m.matches(&path("/R/build"), true));
    assert!(!m.matches(&path("/R/build"), false));
    assert!(m.matches(&path("/R/build/x/y"), false));
}

#[test]
fn case_folds_on_both_sides() {
    let m = file(b"*.LOG\n", &[], false).unwrap();
    assert!(m.matches(&path("/r/a.log"), false));
    assert!(!m.matches(&path("/R/a.log"), false));
    let exact = file(b"*.LOG\n", &[], true).unwrap();
    assert!(!exact.matches(&path("/R/a.log"), false));
    assert!(exact.matches(&path("/R/a.LOG"), false));
}

#[test]
fn lines_are_read_up_to_the_first_that_is_no_text() {
    let m = file(b"a\r\n\xff\nb\n", &[], true).unwrap();
    assert!(m.matches(&path("/R/a"), false));
    assert!(!m.matches(&path("/R/b"), false));
    assert!(file(b"a\n\xff\n", &[], false).is_none());
}

#[test]
fn a_byte_order_mark_is_no_part_of_a_line() {
    let m = file(b"\xef\xbb\xbfa\n\xef\xbb\xbfb\n", &[], true).unwrap();
    assert!(m.matches(&path("/R/a"), false));
    assert!(!m.matches(&path("/R/b"), false));
    let folded = file(b"\xef\xbb\xbfa\n", &[], false).unwrap();
    assert!(!folded.matches(&path("/r/a"), false));
}

#[test]
fn a_file_that_cannot_be_read_ignores_nothing() {
    let none: Option<Vec<u8>> = None;
    let m = DirMatcher::from_gitignore_file(&path("/R"), &none, &vec![], true).unwrap();
    assert!(!m.matches(&path("/R/a"), false));
    assert!(DirMatcher::from_gitignore_file(&path("/R"), &none, &vec![], false).is_none());
}

#[test]
fn a_line_that_is_no_glob_changes_nothing() {
    let m = file(b"{a\nb\n", &[], true).unwrap();
    assert!(m.matches(&path("/R/b"), false));
    assert!(!m.matches(&path("/R/a"), false));
}

#[test]
fn dropped_lines_do_not_match() {
    let m = file(b" *.out\n*.log\n", &["*.out"], true).unwrap();
    assert!(!m.matches(&path("/R/a.out"), false));
    assert!(m.matches(&path("/R/a.log"), false));
}

#[test]
fn patterns_need_not_come_from_a_file() {
    assert!(DirMatcher::from_patterns(&path("/R"), &vec![], true).is_none());
    let patterns = vec![".Git".to_string(), "*.key".to_string()];
    let m = DirMatcher::from_patterns(&path("/R"), &patterns, false).unwrap();
    assert!(m.matches(&path("/r/.git"), true));
    assert!(m.matches(&path("/r/x.key"), false));
    assert!(!m.matches(&path("/r/x"), false));
}
