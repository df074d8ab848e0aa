//! Text: case folding, decoding, whitespace and lines.

use crate::bytes::contents;
use crate::path::FsPath;
use vstd::prelude::*;
use vstd::string::StrSliceExecFns;
use vstd::utf8::{decode_utf8, encode_utf8, valid_utf8};

verus! {

/// What `String::from_utf8_lossy` makes of a byte string.
pub uninterp spec fn lossy_text(bytes: Seq<u8>) -> Seq<char>;

/// What `str::to_lowercase` makes of a text.
pub uninterp spec fn lowercase(text: Seq<char>) -> Seq<char>;

/// The lower case of an ASCII letter; any other character is left as it is.
pub open spec fn ascii_lower(c: char) -> char {
    if 'A' <= c && c <= 'Z' {
        (c as u32 + 32) as char
    } else {
        c
    }
}

/// An ASCII text in lower case.
pub open spec fn ascii_lowered(text: Seq<char>) -> Seq<char> {
    text.map_values(|c: char| ascii_lower(c))
}

/// Whether every character is an ASCII character.
pub open spec fn is_ascii_text(text: Seq<char>) -> bool {
    forall|i: int| 0 <= i < text.len() ==> #[trigger] text[i] <= '\x7f'
}

/// A byte string as text: decoded where it is UTF-8, with U+FFFD for what is not.
pub open spec fn text_form(bytes: Seq<u8>) -> Seq<char> {
    if valid_utf8(bytes) {
        decode_utf8(bytes)
    } else {
        lossy_text(bytes)
    }
}

/// A text in lower case; ASCII text is folded letter by letter.
pub open spec fn lower_form(text: Seq<char>) -> Seq<char> {
    if is_ascii_text(text) {
        ascii_lowered(text)
    } else {
        lowercase(text)
    }
}

/// The texts that a list of strings holds.
pub open spec fn texts(v: Seq<String>) -> Seq<Seq<char>> {
    Seq::new(v.len(), |i: int| v[i]@)
}

/// Trusted: `String::from_utf8_lossy`. The result is a function of the bytes. Bytes
/// that are valid UTF-8 are decoded as they are. What is not is replaced by U+FFFD, which
/// ASCII characters never are: the text starts with `/`, has a `/`, is empty or is `.`
/// exactly where the bytes do or are.
#[verifier::external_body]
pub(crate) fn to_text_lossy(bytes: &[u8]) -> (text: String)
    ensures
        text@ == lossy_text(bytes@),
        valid_utf8(bytes@) ==> text@ == decode_utf8(bytes@),
        (text@.len() > 0 && text@[0] == '/') == (bytes@.len() > 0 && bytes@[0] == 47),
        encode_utf8(text@).contains(47) == bytes@.contains(47),
        (encode_utf8(text@).len() == 0) == (bytes@.len() == 0),
        (encode_utf8(text@) == seq![46u8]) == (bytes@ == seq![46u8]),
{
    String::from_utf8_lossy(bytes).into_owned()
}

/// Trusted: `str::to_lowercase`. The result is a function of the text. ASCII text is
/// folded letter by letter, and a leading `/` stays in front.
#[verifier::external_body]
pub(crate) fn to_lower(text: &str) -> (lower: String)
    ensures
        lower@ == lowercase(text@),
        is_ascii_text(text@) ==> lower@ == ascii_lowered(text@),
        text@.len() > 0 && text@[0] == '/' ==> lower@.len() > 0 && lower@[0] == '/',
{
    text.to_lowercase()
}

/// Trusted: `String::from_utf8`. It decodes the bytes where they are valid UTF-8, and
/// fails where they are not.
#[verifier::external_body]
pub(crate) fn decode(bytes: Vec<u8>) -> (text: Option<String>)
    ensures
        match text {
            Some(t) => valid_utf8(bytes@) && t@ == decode_utf8(bytes@),
            None => !valid_utf8(bytes@),
        },
{
    String::from_utf8(bytes).ok()
}

/// A path in lower case, with U+FFFD for what is not UTF-8.
pub open spec fn lowered(t: Seq<u8>) -> Seq<u8> {
    encode_utf8(lower_form(text_form(t)))
}

/// The lower case of an ASCII letter; any other byte is left as it is.
pub open spec fn lower_byte(b: u8) -> u8 {
    if 65 <= b && b <= 90 {
        (b + 32) as u8
    } else {
        b
    }
}

/// ASCII letters in lower case.
pub open spec fn lower_bytes(t: Seq<u8>) -> Seq<u8> {
    t.map_values(|b: u8| lower_byte(b))
}

/// Whether every byte is an ASCII character.
pub open spec fn is_ascii_path(t: Seq<u8>) -> bool {
    forall|i: int| 0 <= i < t.len() ==> #[trigger] t[i] < 128
}

/// The path in lower case, with U+FFFD for what is not UTF-8. A path in ASCII is folded
/// letter by letter, so that folding it again changes nothing. An absolute path stays
/// absolute.
pub fn lower_path(p: &FsPath) -> (lower: FsPath)
    ensures
        lower@ == lowered(p@),
        is_ascii_path(p@) ==> lower@ == lower_bytes(p@) && lowered(lower@) == lower@,
        crate::path::is_absolute(p@) ==> crate::path::is_absolute(lower@),
{
    let text = to_text_lossy(p.as_bytes());
    let lower = to_lower(&text);
    proof {
        if lower@.len() > 0 && lower@[0] == '/' {
            lemma_encode_slash(lower@);
        }
        if is_ascii_path(p@) {
            lemma_ascii_path(p@);
            lemma_lower_twice(p@);
            lemma_ascii_path(lower_bytes(p@));
        }
    }
    FsPath::from_bytes(lower.as_str().as_bytes())
}

/// An ASCII path is the encoding of an ASCII text, and so is its lower case.
pub proof fn lemma_ascii_path(t: Seq<u8>)
    requires
        is_ascii_path(t),
    ensures
        valid_utf8(t),
        text_form(t) == Seq::new(t.len(), |i: int| t[i] as char),
        is_ascii_text(text_form(t)),
        lower_form(text_form(t)) == ascii_lowered(text_form(t)),
        lowered(t) == lower_bytes(t),
{
    let text = Seq::new(t.len(), |i: int| t[i] as char);
    let lower = ascii_lowered(text);
    assert(vstd::utf8::is_ascii_chars(text));
    vstd::utf8::is_ascii_chars_encode_utf8(text);
    assert(encode_utf8(text) =~= t);
    vstd::utf8::encode_utf8_valid_utf8(text);
    vstd::utf8::encode_utf8_decode_utf8(text);
    assert(vstd::utf8::is_ascii_chars(lower));
    vstd::utf8::is_ascii_chars_encode_utf8(lower);
    assert(encode_utf8(lower) =~= lower_bytes(t));
}

/// ASCII letters that are folded stay as they are when they are folded again.
pub proof fn lemma_lower_twice(t: Seq<u8>)
    ensures
        lower_bytes(lower_bytes(t)) == lower_bytes(t),
        is_ascii_path(lower_bytes(t)) == is_ascii_path(t),
{
    assert(lower_bytes(lower_bytes(t)) =~= lower_bytes(t));
    assert forall|i: int| 0 <= i < t.len() implies (t[i] < 128) == (#[trigger] lower_bytes(t)[i]
        < 128) by {}
    if is_ascii_path(lower_bytes(t)) {
        assert forall|i: int| 0 <= i < t.len() implies #[trigger] t[i] < 128 by {
            assert(lower_bytes(t)[i] < 128);
        }
    }
}

proof fn lemma_encode_slash(text: Seq<char>)
    requires
        text.len() > 0,
        text[0] == '/',
    ensures
        encode_utf8(text).len() > 0,
        encode_utf8(text)[0] == 47,
{
    let one = vstd::utf8::encode_scalar('/' as u32);
    assert(one =~= seq![47u8]) by {
        assert(0x2fu32 & 0x7f == 0x2f) by (bit_vector);
    }
    assert(encode_utf8(text) == one + encode_utf8(text.drop_first()));
}

/// Unicode's White_Space property.
pub open spec fn is_space(c: char) -> bool {
    ||| '\u{9}' <= c && c <= '\u{d}'
    ||| c == ' '
    ||| c == '\u{85}'
    ||| c == '\u{a0}'
    ||| c == '\u{1680}'
    ||| '\u{2000}' <= c && c <= '\u{200a}'
    ||| c == '\u{2028}'
    ||| c == '\u{2029}'
    ||| c == '\u{202f}'
    ||| c == '\u{205f}'
    ||| c == '\u{3000}'
}

/// The text without leading whitespace.
pub open spec fn trim_start(text: Seq<char>) -> Seq<char>
    decreases text.len(),
{
    if text.len() > 0 && is_space(text[0]) {
        trim_start(text.drop_first())
    } else {
        text
    }
}

/// The text without trailing whitespace.
pub open spec fn trim_end(text: Seq<char>) -> Seq<char>
    decreases text.len(),
{
    if text.len() > 0 && is_space(text.last()) {
        trim_end(text.drop_last())
    } else {
        text
    }
}

/// The text without whitespace around it.
pub open spec fn trimmed(text: Seq<char>) -> Seq<char> {
    trim_end(trim_start(text))
}

/// Whether a character is whitespace.
pub fn space(c: char) -> (yes: bool)
    ensures
        yes == is_space(c),
{
    ('\u{9}' <= c && c <= '\u{d}') || c == ' ' || c == '\u{85}' || c == '\u{a0}' || c == '\u{1680}'
        || ('\u{2000}' <= c && c <= '\u{200a}') || c == '\u{2028}' || c == '\u{2029}' || c
        == '\u{202f}' || c == '\u{205f}' || c == '\u{3000}'
}

/// The characters of a text.
pub fn characters(text: &str) -> (cs: Vec<char>)
    ensures
        cs@ == text@,
{
    let mut cs: Vec<char> = Vec::new();
    for c in it: text.chars()
        invariant
            cs@ == it.seq().take(it.index() as int),
            it.seq() == text@,
    {
        cs.push(c);
    }
    assert(text@.take(text@.len() as int) =~= text@);
    cs
}

/// The text without whitespace around it.
pub fn trim(text: &str) -> (out: String)
    ensures
        out@ == trimmed(text@),
{
    let cs = characters(text);
    let mut from: usize = 0;
    assert(cs@.skip(0) =~= cs@);
    while from < cs.len() && space(cs[from])
        invariant
            from <= cs.len(),
            cs@ == text@,
            trim_start(cs@.skip(from as int)) == trim_start(text@),
        decreases cs.len() - from,
    {
        assert(cs@.skip(from as int).drop_first() =~= cs@.skip(from + 1));
        from += 1;
    }
    let mut to: usize = cs.len();
    assert(cs@.subrange(from as int, to as int) =~= cs@.skip(from as int));
    while to > from && space(cs[to - 1])
        invariant
            from <= to <= cs.len(),
            cs@ == text@,
            trim_end(cs@.subrange(from as int, to as int)) == trimmed(text@),
        decreases to,
    {
        assert(cs@.subrange(from as int, to as int).drop_last() =~= cs@.subrange(
            from as int,
            to - 1,
        ));
        to -= 1;
    }
    text.substring_char(from, to).to_owned()
}

/// The line feed.
pub const LF: u8 = 10;

/// The carriage return.
pub const CR: u8 = 13;

/// The text between line feeds: always one row more than there are line feeds.
pub open spec fn rows(t: Seq<u8>) -> Seq<Seq<u8>>
    decreases t.len(),
{
    if t.len() == 0 {
        seq![Seq::<u8>::empty()]
    } else {
        let rs = rows(t.drop_last());
        if t.last() == LF {
            rs.push(Seq::<u8>::empty())
        } else {
            rs.update(rs.len() - 1, rs.last().push(t.last()))
        }
    }
}

/// A row without the carriage return of a CR LF line ending.
pub open spec fn chomp(row: Seq<u8>) -> Seq<u8> {
    if row.len() > 0 && row.last() == CR {
        row.drop_last()
    } else {
        row
    }
}

/// The lines of a text, without their line endings. What follows the last line ending
/// is a line unless it is empty.
pub open spec fn lines(t: Seq<u8>) -> Seq<Seq<u8>> {
    let rs = rows(t);
    let ended = rs.drop_last().map_values(|r: Seq<u8>| chomp(r));
    if rs.last().len() == 0 {
        ended
    } else {
        ended.push(rs.last())
    }
}

/// The lines of a text, without their line endings.
pub fn split_lines(t: &[u8]) -> (ls: Vec<Vec<u8>>)
    ensures
        contents(ls@) == lines(t@),
{
    let mut done: Vec<Vec<u8>> = Vec::new();
    let mut row: Vec<u8> = Vec::new();
    let mut i: usize = 0;
    let ghost f = |r: Seq<u8>| chomp(r);
    assert(t@.take(0) =~= Seq::<u8>::empty());
    assert(rows(t@.take(0)).drop_last().map_values(f) =~= contents(done@));
    while i < t.len()
        invariant
            i <= t.len(),
            rows(t@.take(i as int)).len() > 0,
            row@ == rows(t@.take(i as int)).last(),
            f == (|r: Seq<u8>| chomp(r)),
            contents(done@) == rows(t@.take(i as int)).drop_last().map_values(f),
        decreases t.len() - i,
    {
        let c = t[i];
        let ghost rs = rows(t@.take(i as int));
        let ghost was = contents(done@);
        let ghost full = row@;
        assert(t@.take(i + 1).drop_last() =~= t@.take(i as int));
        if c == LF {
            if row.len() > 0 && row[row.len() - 1] == CR {
                row.pop();
            }
            assert(row@ =~= chomp(full));
            done.push(row);
            row = Vec::new();
            assert(contents(done@) =~= was.push(chomp(full)));
            assert(rows(t@.take(i + 1)).drop_last() =~= rs);
            assert(rs =~= rs.drop_last().push(full));
            assert(contents(done@) =~= rs.map_values(f));
        } else {
            row.push(c);
            assert(rows(t@.take(i + 1)).drop_last() =~= rs.drop_last());
        }
        i += 1;
    }
    assert(t@.take(t@.len() as int) =~= t@);
    if row.len() > 0 {
        let ghost was = contents(done@);
        let ghost last = row@;
        done.push(row);
        assert(contents(done@) =~= was.push(last));
    }
    done
}

/// The byte order mark.
pub const BOM: char = '\u{feff}';

/// The text without leading byte order marks.
pub open spec fn without_bom(text: Seq<char>) -> Seq<char>
    decreases text.len(),
{
    if text.len() > 0 && text[0] == BOM {
        without_bom(text.drop_first())
    } else {
        text
    }
}

/// The text without leading byte order marks.
pub fn strip_bom(text: &str) -> (out: String)
    ensures
        out@ == without_bom(text@),
{
    let cs = characters(text);
    let mut from: usize = 0;
    assert(cs@.skip(0) =~= cs@);
    while from < cs.len() && cs[from] == BOM
        invariant
            from <= cs.len(),
            cs@ == text@,
            without_bom(cs@.skip(from as int)) == without_bom(text@),
        decreases cs.len() - from,
    {
        assert(cs@.skip(from as int).drop_first() =~= cs@.skip(from + 1));
        from += 1;
    }
    assert(cs@.subrange(from as int, cs@.len() as int) =~= cs@.skip(from as int));
    text.substring_char(from, cs.len()).to_owned()
}

} // verus!
