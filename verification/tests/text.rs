use fuseshadow::bytes::{bytes_eq, copy_bytes, push_bytes};
use fuseshadow::decimal::{iso8601, push_decimal, push_padded, UtcTime};
use fuseshadow::path::FsPath;
use fuseshadow::text::{characters, lower_path, space, split_lines, strip_bom, trim};

#[test]
fn space_agrees_with_std() {
    for n in 0..=0x10ffffu32 {
        if let Some(c) = char::from_u32(n) {
            assert_eq!(space(c), c.is_whitespace(), "{n:x}");
        }
    }
}

#[test]
fn trim_agrees_with_std() {
    for t in ["", " ", "a", " a ", "\ta b\r\n", "\u{3000}x\u{a0}", "  *.out  ", "\u{feff} a"] {
        assert_eq!(trim(t), t.trim());
    }
}

#[test]
fn lines_agree_with_std() {
    for t in ["", "a", "a\n", "a\nb", "\n", "\n\n", "a\r\nb\r", "a\r\n", "\r\n\r\n", "a\rb\n", "a\r\r\n"] {
        let want: Vec<Vec<u8>> = t.lines().map(|l| l.as_bytes().to_vec()).collect();
        assert_eq!(split_lines(t.as_bytes()), want, "{t:?}");
    }
}

#[test]
fn lower_path_folds_case() {
    let lower = |b: &[u8]| lower_path(&FsPath::from_bytes(b)).as_bytes().to_vec();
    assert_eq!(lower(b"/Src/Main.RS"), b"/src/main.rs");
    assert_eq!(lower("Ä/Öl".as_bytes()), "ä/öl".as_bytes());
    assert_eq!(lower(b"A\xffB"), "a\u{fffd}b".as_bytes());
    assert_eq!(lower(b""), b"");
}

#[test]
fn byte_order_marks_are_stripped() {
    assert_eq!(strip_bom("\u{feff}\u{feff}a\u{feff}"), "a\u{feff}");
    assert_eq!(strip_bom("a"), "a");
    assert_eq!(strip_bom(""), "");
}

#[test]
fn characters_of_a_text() {
    assert_eq!(characters("aö"), vec!['a', 'ö']);
}

#[test]
fn bytes_compare_and_copy() {
    assert!(bytes_eq(b"ab", b"ab"));
    assert!(!bytes_eq(b"ab", b"ac"));
    assert!(!bytes_eq(b"ab", b"abc"));
    let mut v = copy_bytes(b"ab");
    push_bytes(&mut v, b"cd");
    assert_eq!(v, b"abcd");
}

#[test]
fn numbers_in_decimal() {
    for n in [0u32, 7, 10, 99, 100, 1234, u32::MAX] {
        let mut out = String::new();
        push_decimal(&mut out, n);
        assert_eq!(out, format!("{n}"));
        for width in [0u32, 1, 2, 4, 12] {
            let mut out = String::new();
            push_padded(&mut out, n, width);
            assert_eq!(out, format!("{n:0w$}", w = width as usize));
        }
    }
}

#[test]
fn times_as_iso8601() {
    let t = UtcTime { year: 2026, month: 5, day: 4, hour: 14, minute: 3, second: 0 };
    assert_eq!(iso8601(&t), "2026-05-04T14:03:00Z");
    let late = UtcTime { year: 12026, month: 12, day: 31, hour: 23, minute: 59, second: 60 };
    assert_eq!(iso8601(&late), "12026-12-31T23:59:60Z");
}

#[test]
fn folding_twice_is_folding_once() {
    for t in ["/Src/Main.RS", "", "A/../B", "Z[", "Ä/ÖL", "İ/ΑΣ"] {
        let once = lower_path(&FsPath::from_bytes(t.as_bytes()));
        assert_eq!(lower_path(&once).as_bytes(), once.as_bytes(), "{t}");
    }
}

#[test]
fn folding_goes_name_by_name() {
    for (a, b) in [("/Src", "Main.RS"), ("", "X"), ("A/", "B"), ("A", "/B"), ("Ä", "ÖL")] {
        let a = FsPath::from_bytes(a.as_bytes());
        let b = FsPath::from_bytes(b.as_bytes());
        let whole = lower_path(&a.join(&b));
        assert_eq!(whole.as_bytes(), lower_path(&a).join(&lower_path(&b)).as_bytes());
    }
}
