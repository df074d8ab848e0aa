//! What holds of the answers that the mount gives.

use crate::attr::{attr_of, is_some_dir, FileAttr, FileStat};
use crate::attr_laws::{law_attributes, law_write_flags};
use crate::decimal::decimal;
use crate::decimal_laws::law_decimal;
use crate::fs_laws::{law_rename_keeps_numbers, law_rename_consistent};
use crate::inodes::{key_moves, rekeyed, root_only, Inodes};
use crate::load::{failure_text, Failure};
use crate::path::{components, is_absolute, is_dot_dot, kept, parent, pieces, starts_with, strip};
use crate::path_laws::{
    is_plain, law_components_joined, law_joined_stripped, law_parent_shorter, lemma_empty_path,
    lemma_plain_relative,
};
use crate::report::{blanks, class_text, report_text};
use crate::rules::{PathClass, Rules};
use crate::shadow_fs::{
    attr_answer, create_flags, dir_answer, fd_path, link_answer, open_answer, parent_number,
    rename_answer, shown, shown_attr, spot_of, target_in_mount, write_answer, Root,
};
use crate::text::text_form;
use vstd::prelude::*;
use vstd::utf8::encode_utf8;

verus! {

/// Opening a file: what is hidden does not exist, what is blocked is denied, a `.gitignore`
/// is denied for writing, and the file is taken from where it lives.
pub proof fn law_open(class: PathClass, flags: i32)
    ensures
        open_answer(class, flags) == Err::<Root, i32>(2) <==> class == PathClass::Hidden,
        open_answer(class, flags) == Err::<Root, i32>(13) <==> class == PathClass::Blocked || (class
            == PathClass::GitignoreFile && (flags & 3 == 1 || flags & 3 == 2)),
        open_answer(class, flags) == Ok::<Root, i32>(Root::Overlay) <==> class
            == PathClass::WritableOverlay,
        open_answer(class, flags) == Ok::<Root, i32>(Root::Source) <==> class
            == PathClass::Passthrough || (class == PathClass::GitignoreFile && flags & 3 != 1
            && flags & 3 != 2),
{
    law_write_flags(flags);
}

/// Creating, changing and removing a file: only what passes through is changed in the
/// source tree, and only what lives in the overlay there.
pub proof fn law_write(class: PathClass)
    ensures
        write_answer(class) == Err::<Root, i32>(2) <==> class == PathClass::Hidden,
        write_answer(class) == Err::<Root, i32>(13) <==> class == PathClass::Blocked || class
            == PathClass::GitignoreFile,
        write_answer(class) == Ok::<Root, i32>(Root::Overlay) <==> class
            == PathClass::WritableOverlay,
        write_answer(class) == Ok::<Root, i32>(Root::Source) <==> class == PathClass::Passthrough,
{
}

/// Making and removing a directory: only what passes through is.
pub proof fn law_directory(class: PathClass)
    ensures
        dir_answer(class) is Ok <==> class == PathClass::Passthrough,
        dir_answer(class) == Err::<(), i32>(2) <==> class == PathClass::Hidden || class
            == PathClass::WritableOverlay,
        dir_answer(class) == Err::<(), i32>(13) <==> class == PathClass::Blocked || class
            == PathClass::GitignoreFile,
{
}

/// Reading a link: what can be read is.
pub proof fn law_read_link(class: PathClass)
    ensures
        link_answer(class) is Ok <==> class == PathClass::Passthrough || class
            == PathClass::GitignoreFile,
        link_answer(class) == Err::<(), i32>(2) <==> class == PathClass::Hidden || class
            == PathClass::WritableOverlay,
        link_answer(class) == Err::<(), i32>(13) <==> class == PathClass::Blocked,
{
}

/// Renaming: both sides have to pass through; where either is hidden, it does not exist.
pub proof fn law_rename(a: PathClass, b: PathClass)
    ensures
        rename_answer(a, b) is Ok <==> a == PathClass::Passthrough && b == PathClass::Passthrough,
        rename_answer(a, b) == Err::<(), i32>(2) <==> a == PathClass::Hidden || b
            == PathClass::Hidden,
        rename_answer(a, b) == Err::<(), i32>(13) <==> a != PathClass::Hidden && b
            != PathClass::Hidden && !(a == PathClass::Passthrough && b == PathClass::Passthrough),
{
}

/// What is shown of a path is what it has where it lives; of what is hidden nothing is.
pub proof fn law_shown(class: PathClass, source: Option<FileStat>, overlay: Option<FileStat>)
    ensures
        class == PathClass::Hidden ==> shown(class, source, overlay) is None,
        class == PathClass::WritableOverlay ==> shown(class, source, overlay) == overlay,
        class == PathClass::Blocked || class == PathClass::GitignoreFile || class
            == PathClass::Passthrough ==> shown(class, source, overlay) == source,
{
}

/// The attributes of what is blocked are those of the file without its permissions; of
/// anything else they are those of the file.
pub proof fn law_shown_attributes(class: PathClass, ino: u64, s: FileStat)
    ensures
        ({
            let a = shown_attr(class, ino, s);
            &&& a.ino == ino
            &&& s.size >= 0 ==> a.size == s.size
            &&& s.blocks >= 0 ==> a.blocks == s.blocks
            &&& a.uid == s.uid && a.gid == s.gid
            &&& class == PathClass::Blocked ==> a.perm == 0
            &&& class != PathClass::Blocked ==> a.perm == s.mode % 4096
            &&& (FileAttr { perm: attr_of(ino, s).perm, ..a }) == attr_of(ino, s)
        }),
{
    law_attributes(ino, s);
}

/// Asking for the attributes of a path succeeds exactly where it is not hidden and there is
/// a file where it lives, and gives those of that file.
pub proof fn law_attributes_asked(
    r: Rules,
    ino: u64,
    rel: Seq<u8>,
    source: Option<FileStat>,
    overlay: Option<FileStat>,
)
    ensures
        ({
            let is_dir = source is Some && (source->0.mode / 4096) % 16 == 4;
            let class = r.class_of(rel, is_dir);
            let there = if class == PathClass::WritableOverlay {
                overlay
            } else {
                source
            };
            match attr_answer(r, ino, rel, source, overlay) {
                Ok(a) => {
                    &&& class != PathClass::Hidden
                    &&& there is Some
                    &&& a.ino == ino
                    &&& there->0.size >= 0 ==> a.size == there->0.size
                    &&& class == PathClass::Blocked ==> a.perm == 0
                    &&& class != PathClass::Blocked ==> a == attr_of(ino, there->0)
                },
                Err(e) => e == 2 && (class == PathClass::Hidden || there is None),
            }
        }),
{
    if source is Some {
        crate::attr_laws::law_kind_bits(source->0);
        law_attributes(ino, source->0);
    }
    if overlay is Some {
        law_attributes(ino, overlay->0);
    }
    assert(is_some_dir(source) == (source is Some && (source->0.mode / 4096) % 16 == 4));
}

/// A file is created for reading and writing, cut to length zero exactly where that is
/// asked for, and with no other flag.
pub proof fn law_create_flags(flags: i32)
    ensures
        create_flags(flags) & 3 == 2,
        create_flags(flags) & 64 == 64,
        create_flags(flags) & 512 == flags & 512,
        create_flags(flags) & !(3i32 | 64 | 512) == 0,
{
    assert((2i32 | 64) & 3 == 2 && (2i32 | 64 | 512) & 3 == 2) by (bit_vector);
    assert((2i32 | 64) & 64 == 64 && (2i32 | 64 | 512) & 64 == 64) by (bit_vector);
    assert((2i32 | 64) & 512 == 0 && (2i32 | 64 | 512) & 512 == 512) by (bit_vector);
    assert((2i32 | 64) & !(3i32 | 64 | 512) == 0 && (2i32 | 64 | 512) & !(3i32 | 64 | 512) == 0)
        by (bit_vector);
    assert(flags & 512 == 0 || flags & 512 == 512) by (bit_vector);
}

/// A link to the source tree or into it leads to the same place in the mount, and any other
/// where it led.
pub proof fn law_link_target(target: Seq<u8>, source: Seq<u8>, mountpoint: Seq<u8>)
    requires
        components(source).len() > 0,
    ensures
        is_absolute(target) && starts_with(target, source) ==> components(
            target_in_mount(target, source, mountpoint),
        ) == components(mountpoint) + components(target).skip(components(source).len() as int),
        !(is_absolute(target) && starts_with(target, source)) ==> target_in_mount(
            target,
            source,
            mountpoint,
        ) == target,
{
    law_joined_stripped(mountpoint, target, source);
    if is_absolute(target) && starts_with(target, source) {
        let s = strip(target, source)->0;
        assert((components(source) + components(s)).skip(components(source).len() as int)
            =~= components(s));
    }
}

/// A path names the entry by its last component in the directory of the others; one
/// without a name there names none.
pub proof fn law_entry_of(rel: Seq<u8>)
    requires
        is_plain(rel),
    ensures
        is_dot_dot(pieces(rel).last()) <==> spot_of(rel) is None,
        spot_of(rel) matches Some(s) ==> s.name == pieces(rel).last() && components(s.dir)
            == pieces(rel).drop_last(),
{
    law_components_joined(Seq::<u8>::empty(), rel);
    lemma_plain_relative(rel);
    crate::path::lemma_pieces_len(rel);
    law_parent_shorter(rel);
    assert(kept(pieces(rel)) == pieces(rel));
    let n = pieces(rel).len() - 1;
    assert(!crate::path::is_blank(pieces(rel)[n]));
}

/// The root is above itself; a directory above which is known has its number.
pub proof fn law_number_above(t: Inodes, rel: Seq<u8>)
    requires
        t.consistent(),
    ensures
        rel.len() == 0 ==> parent_number(t, rel) == 1,
        rel.len() > 0 && is_plain(rel) && t.index.contains_key(components(rel).drop_last())
            ==> t.paths.contains_key(parent_number(t, rel)) && components(
            t.paths[parent_number(t, rel)],
        ) == components(rel).drop_last(),
        rel.len() > 0 && is_plain(rel) && !t.index.contains_key(components(rel).drop_last())
            ==> parent_number(t, rel) == 1,
{
    if rel.len() > 0 && is_plain(rel) {
        law_parent_shorter(rel);
        law_components_joined(Seq::<u8>::empty(), rel);
        lemma_plain_relative(rel);
        crate::path::lemma_pieces_len(rel);
        assert(kept(pieces(rel)) == pieces(rel));
        assert(parent(rel) is Some);
    }
}

/// Each open directory is read and written by a path of its own.
pub proof fn law_directory_paths(a: nat, b: nat)
    ensures
        a != b ==> fd_path(a) != fd_path(b),
        fd_path(a) == encode_utf8("/proc/self/fd/"@ + decimal(a)),
{
    let x = "/proc/self/fd/"@ + decimal(a);
    let y = "/proc/self/fd/"@ + decimal(b);
    vstd::utf8::encode_utf8_decode_utf8(x);
    vstd::utf8::encode_utf8_decode_utf8(y);
    law_decimal(a);
    law_decimal(b);
    if fd_path(a) == fd_path(b) {
        assert(x == y);
        let n = "/proc/self/fd/"@.len() as int;
        assert(x.skip(n) =~= decimal(a));
        assert(y.skip(n) =~= decimal(b));
    }
}

/// A new mount knows its root alone, under the first number.
pub proof fn law_new_mount(i: u64, k: Seq<Seq<u8>>)
    ensures
        root_only().consistent(),
        root_only().next == 2,
        root_only().paths.contains_key(i) <==> i == 1,
        root_only().paths[1].len() == 0,
        root_only().index.contains_key(k) <==> k.len() == 0,
        root_only().index[Seq::<Seq<u8>>::empty()] == 1,
{
    lemma_empty_path();
    if k.len() == 0 {
        assert(k =~= Seq::<Seq<u8>>::empty());
    }
}

/// Looking up a path gives it a number that no path has, where it has none, and touches no
/// other path and no other number.
pub proof fn law_assign_spares(t: Inodes, rel: Seq<u8>, k: Seq<Seq<u8>>, i: u64)
    requires
        t.consistent(),
        t.next < u64::MAX,
    ensures
        t.index.contains_key(components(rel)) ==> t.assigned(rel) == t && t.number(rel)
            == t.index[components(rel)],
        !t.index.contains_key(components(rel)) ==> !t.paths.contains_key(t.number(rel))
            && t.assigned(rel).next == t.next + 1 && t.assigned(rel).paths.contains_key(
            t.number(rel),
        ) && t.assigned(rel).paths[t.number(rel)] == rel,
        t.assigned(rel).index.contains_key(components(rel)),
        t.assigned(rel).index[components(rel)] == t.number(rel),
        k != components(rel) ==> (t.assigned(rel).index.contains_key(k) <==> t.index.contains_key(
            k,
        )) && t.assigned(rel).index[k] == t.index[k],
        t.paths.contains_key(i) ==> t.assigned(rel).paths.contains_key(i) && t.assigned(
            rel,
        ).paths[i] == t.paths[i],
{
    if t.index.contains_key(components(rel)) {
        assert(t.paths.contains_key(t.index[components(rel)]));
    }
}

/// Removing a path touches no other path and no other number.
pub proof fn law_remove_spares(t: Inodes, rel: Seq<u8>, k: Seq<Seq<u8>>, i: u64)
    ensures
        t.removed(rel).next == t.next,
        !t.index.contains_key(components(rel)) ==> t.removed(rel) == t,
        k != components(rel) ==> (t.removed(rel).index.contains_key(k) <==> t.index.contains_key(k))
            && t.removed(rel).index[k] == t.index[k],
        t.paths.contains_key(i) && !(t.index.contains_key(components(rel))
            && t.index[components(rel)] == i) ==> t.removed(rel).paths.contains_key(i) && t.removed(
            rel,
        ).paths[i] == t.paths[i],
{
}

/// A rename moves the paths that it is to and no others: a number that moves stands for the
/// path under the new name, and a path is known afterwards exactly where it came to be by
/// the rename or was there and did not move.
pub proof fn law_rename_moves_paths(
    t: Inodes,
    old_rel: Seq<u8>,
    new_rel: Seq<u8>,
    is_dir: bool,
    k: Seq<Seq<u8>>,
    i: u64,
)
    requires
        t.consistent(),
        components(old_rel).len() > 0,
    ensures
        ({
            let a = components(old_rel);
            let b = components(new_rel);
            let now = t.renamed(old_rel, new_rel, is_dir);
            &&& now.next == t.next
            &&& now.paths.contains_key(i) <==> t.paths.contains_key(i)
            &&& t.index.contains_key(k) && (k == a || (is_dir && a.is_prefix_of(k)))
                ==> now.paths.contains_key(t.index[k]) && components(now.paths[t.index[k]]) == b
                + k.skip(a.len() as int)
            &&& t.paths.contains_key(i) && (forall|j: Seq<Seq<u8>>| #[trigger]
                t.index.contains_key(j) && t.index[j] == i ==> j != a && !(is_dir
                    && a.is_prefix_of(j))) ==> now.paths[i] == t.paths[i]
            &&& t.index.contains_key(k) && k != a && !(is_dir && a.is_prefix_of(k)) && (forall|
                j: Seq<Seq<u8>>,
            | #[trigger]
                t.index.contains_key(j) && (j == a || (is_dir && a.is_prefix_of(j))) ==> b + j.skip(
                    a.len() as int,
                ) != k) ==> now.index.contains_key(k) && now.index[k] == t.index[k]
            &&& now.index.contains_key(k) ==> (t.index.contains_key(k) && k != a && !(is_dir
                && a.is_prefix_of(k))) || exists|j: Seq<Seq<u8>>| #[trigger]
                t.index.contains_key(j) && (j == a || (is_dir && a.is_prefix_of(j))) && k == b
                    + j.skip(a.len() as int)
        }),
{
    let a = components(old_rel);
    let b = components(new_rel);
    let now = t.renamed(old_rel, new_rel, is_dir);
    law_rename_consistent(t, old_rel, new_rel, is_dir);
    if t.index.contains_key(k) && key_moves(k, a, is_dir) {
        law_rename_keeps_numbers(t, old_rel, new_rel, is_dir, k);
        let to = rekeyed(k, a, b);
        assert(now.index.contains_key(to));
    }
    if t.paths.contains_key(i) && forall|j: Seq<Seq<u8>>| #[trigger]
        t.index.contains_key(j) && t.index[j] == i ==> j != a && !(is_dir && a.is_prefix_of(j)) {
        assert(!t.moves(i, a, is_dir));
    }
    if t.arrives(k, a, b, is_dir) {
        let j = rekeyed(k, b, a);
        assert(j.skip(a.len() as int) =~= k.skip(b.len() as int));
        assert(b + k.skip(b.len() as int) =~= k);
        assert(t.index.contains_key(j));
        assert(j == a || (is_dir && a.is_prefix_of(j)));
        assert(b + j.skip(a.len() as int) == k);
    }
}

/// A column of spaces is as wide as it is to be.
pub proof fn law_blanks(n: nat)
    ensures
        blanks(n).len() == n,
        forall|i: int| 0 <= i < n ==> #[trigger] blanks(n)[i] == ' ',
    decreases n,
{
    reveal_strlit(" ");
    if n > 0 {
        law_blanks((n - 1) as nat);
    }
}

/// A line of the report tells the class in a column of its own and, behind it, the path.
pub proof fn law_report(class: PathClass, rel: Seq<u8>)
    ensures
        ({
            let t = report_text(class, rel);
            let n = class_text(class).len() as int;
            &&& n <= 20
            &&& t.len() == 21 + text_form(rel).len()
            &&& t.take(n) == class_text(class)
            &&& forall|i: int| n <= i < 21 ==> #[trigger] t[i] == ' '
            &&& t.skip(21) == text_form(rel)
        }),
        class_text(PathClass::Hidden) == seq!['H', 'i', 'd', 'd', 'e', 'n'],
        class_text(PathClass::Blocked) == seq!['B', 'l', 'o', 'c', 'k', 'e', 'd'],
        class_text(PathClass::WritableOverlay) == seq![
            'W',
            'r',
            'i',
            't',
            'a',
            'b',
            'l',
            'e',
            'O',
            'v',
            'e',
            'r',
            'l',
            'a',
            'y',
        ],
        class_text(PathClass::GitignoreFile) == seq![
            'G',
            'i',
            't',
            'i',
            'g',
            'n',
            'o',
            'r',
            'e',
            'F',
            'i',
            'l',
            'e',
        ],
        class_text(PathClass::Passthrough) == seq![
            'P',
            'a',
            's',
            's',
            't',
            'h',
            'r',
            'o',
            'u',
            'g',
            'h',
        ],
{
    reveal_strlit("Hidden");
    reveal_strlit("Blocked");
    reveal_strlit("WritableOverlay");
    reveal_strlit("GitignoreFile");
    reveal_strlit("Passthrough");
    reveal_strlit(" ");
    let t = report_text(class, rel);
    let name = class_text(class);
    let n = name.len() as int;
    law_blanks((20 - n) as nat);
    assert(t.take(n) =~= name);
    assert(t.skip(21) =~= text_form(rel));
    assert forall|i: int| n <= i < 21 implies #[trigger] t[i] == ' ' by {
        if i < 20 {
            assert(blanks((20 - n) as nat)[i - n] == ' ');
        }
    }
    assert(class_text(PathClass::Hidden) =~= seq!['H', 'i', 'd', 'd', 'e', 'n']);
}

/// Every message names the file that it is about, and the one where renames belong.
pub proof fn law_messages(p: Seq<u8>, q: Seq<u8>)
    ensures
        failure_text(Failure::Reading(p)).skip("reading "@.len() as int) == text_form(p),
        failure_text(Failure::Parsing(p)).skip("parsing "@.len() as int) == text_form(p),
        text_form(p).is_prefix_of(failure_text(Failure::Nested(p))),
        text_form(p).is_prefix_of(failure_text(Failure::NestedRenames(p, q))),
        exists|a: Seq<char>, b: Seq<char>|
            failure_text(Failure::NestedRenames(p, q)) == text_form(p) + a + text_form(q) + b,
{
    assert(failure_text(Failure::Reading(p)).skip("reading "@.len() as int) =~= text_form(p));
    assert(failure_text(Failure::Parsing(p)).skip("parsing "@.len() as int) =~= text_form(p));
    let a =
        " contains folder_renames, which is only allowed in the root .shadowconfig. Please move these entries to "@;
    let b = " or remove them."@;
    assert(failure_text(Failure::NestedRenames(p, q)) == text_form(p) + a + text_form(q) + b);
}

} // verus!
