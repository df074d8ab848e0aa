use fuseshadow::path::FsPath;
use fuseshadow::path_map::PathMap;
use std::path::Path;

const SAMPLES: [&str; 22] = [
    "", "/", "//", ".", "./", "..", "a", "a/", "/a", "a/b", "a//b", "a/./b", "./a", "a/b/c", "/a/b/",
    "/a/../b", "a/..", ".a/b.c", "/./a", "a/b/.", "//a//b", "b",
];

fn path(text: &str) -> FsPath {
    FsPath::from_bytes(text.as_bytes())
}

fn text(p: &FsPath) -> String {
    String::from_utf8(p.as_bytes().to_vec()).unwrap()
}

#[test]
fn join_agrees_with_std() {
    for a in SAMPLES {
        for b in SAMPLES {
            let want = Path::new(a).join(b);
            assert_eq!(text(&path(a).join(&path(b))), want.to_str().unwrap(), "{a:?} {b:?}");
        }
    }
}

#[test]
fn strip_prefix_agrees_with_std() {
    for a in SAMPLES {
        for b in SAMPLES {
            let want = Path::new(a).strip_prefix(b).ok().map(|p| p.to_str().unwrap().to_string());
            assert_eq!(path(a).strip_prefix(&path(b)).map(|p| text(&p)), want, "{a:?} {b:?}");
        }
    }
}

#[test]
fn comparisons_agree_with_std() {
    for a in SAMPLES {
        for b in SAMPLES {
            assert_eq!(path(a).same(&path(b)), Path::new(a) == Path::new(b), "{a:?} {b:?}");
            assert_eq!(
                path(a).starts_with(&path(b)),
                Path::new(a).starts_with(b),
                "{a:?} {b:?}"
            );
        }
    }
}

#[test]
fn parent_and_file_name_agree_with_std() {
    for a in SAMPLES {
        let p = path(a);
        let std_path = Path::new(a);
        assert_eq!(
            p.parent().map(|q| text(&q)),
            std_path.parent().map(|q| q.to_str().unwrap().to_string()),
            "{a:?}"
        );
        assert_eq!(
            p.file_name().map(|n| String::from_utf8(n).unwrap()),
            std_path.file_name().map(|n| n.to_str().unwrap().to_string()),
            "{a:?}"
        );
        assert_eq!(p.is_absolute(), std_path.is_absolute(), "{a:?}");
        assert_eq!(p.is_empty(), a.is_empty(), "{a:?}");
    }
}

#[test]
fn what_is_joined_can_be_stripped() {
    for a in SAMPLES {
        for s in ["x", "x/y", "x/..", ".hidden/z"] {
            let t = path(a).join(&path(s));
            assert_eq!(t.strip_prefix(&path(a)).map(|p| text(&p)), Some(s.to_string()));
        }
        let p = path(a);
        if !p.is_empty() {
            assert_eq!(p.strip_prefix(&p).map(|q| text(&q)), Some(String::new()), "{a:?}");
        }
    }
}

#[test]
fn empty_path_is_opened_as_dot() {
    assert_eq!(text(&path("").or_dot()), ".");
    assert_eq!(text(&path("a/b").or_dot()), "a/b");
}

#[test]
fn bytes_that_are_no_text_are_kept() {
    let p = FsPath::from_bytes(b"a/\xff");
    assert_eq!(p.as_bytes(), b"a/\xff");
    assert_eq!(p.file_name(), Some(b"\xff".to_vec()));
    assert_eq!(p.clone().as_bytes(), p.as_bytes());
}

#[test]
fn map_tells_paths_apart_by_components() {
    let mut m: PathMap<u64> = PathMap::new();
    assert!(m.is_empty());
    m.insert(&path("a/b"), 1);
    m.insert(&path("a//b/"), 2);
    m.insert(&path("c"), 3);
    assert_eq!(m.len(), 2);
    assert!(!m.is_empty());
    assert_eq!(m.get(&path("a/./b")), Some(&2));
    assert_eq!(text(m.entry(0).0), "a/b");
    assert_eq!(m.get(&path("a")), None);
    assert_eq!(m.remove(&path("a/b")), Some(2));
    assert_eq!(m.remove(&path("a/b")), None);
    assert_eq!(m.get(&path("c")), Some(&3));
    assert_eq!(m.len(), 1);
}

#[test]
fn places_are_told_by_their_names() {
    for (a, b) in [
        ("/a/b/../c", "/a/c"),
        ("/a/../../c", "/c"),
        ("/..", "/"),
        ("/a//./b/..", "/a/"),
        ("../x", "./../x"),
        ("a/../../x", "../x"),
    ] {
        assert!(path(a).same_place(&path(b)), "{a} {b}");
    }
    for (a, b) in [("/a/b", "/a"), ("a", "/a"), ("/a/..", "/a"), ("../x", "x"), ("..", ""), ("./../x", "x")] {
        assert!(!path(a).same_place(&path(b)), "{a} {b}");
    }
}
