//! What holds of the mount as a whole.

use crate::attr::{asks_write, attr_of, FileAttr, FileStat, DT_DIR, EACCES, ENOENT};
use crate::inodes::{key_moves, rekeyed, root_only, Inodes};
use crate::listing::{
    children_below, entry_kind, entry_path, has_name, is_dots, list_of, listed, listed_from,
    numbers_after, numbers_after_all, overlay_entry, overlay_list, source_entry, source_list,
    DirList, Raw, Shown,
};
use crate::path::{components, is_absolute, joined, lemma_pieces_len, parent, strip};
use crate::path_laws::{
    is_plain, law_components_joined, law_parent_and_name, law_parent_shorter, law_plain_joined,
    law_plain_same, law_plain_stripped, law_strip_joined, lemma_empty_path,
};
use crate::rules::{PathClass, Rules};
use crate::shadow_fs::{
    attr_answer, dir_answer, link_answer, open_answer, parent_number, rename_answer, shown,
    shown_attr, spot_of, target_in_mount, write_answer, Root,
};
use crate::text::text_form;
use vstd::prelude::*;
use vstd::utf8::{encode_utf8, valid_utf8};

verus! {

/// What is hidden does not exist: every request on it is answered so.
pub proof fn law_hidden_absent(
    flags: i32,
    other: PathClass,
    source: Option<FileStat>,
    overlay: Option<FileStat>,
)
    ensures
        shown(PathClass::Hidden, source, overlay) is None,
        open_answer(PathClass::Hidden, flags) == Err::<Root, i32>(ENOENT),
        write_answer(PathClass::Hidden) == Err::<Root, i32>(ENOENT),
        dir_answer(PathClass::Hidden) == Err::<(), i32>(ENOENT),
        link_answer(PathClass::Hidden) == Err::<(), i32>(ENOENT),
        rename_answer(PathClass::Hidden, other) == Err::<(), i32>(ENOENT),
        rename_answer(other, PathClass::Hidden) == Err::<(), i32>(ENOENT),
{
}

/// What is hidden is in no listing.
pub proof fn law_hidden_unlisted(
    r: Rules,
    l: DirList,
    name: Seq<u8>,
    d_type: u8,
    overlay: Option<FileStat>,
)
    requires
        r.class_of(entry_path(l.dir, name), d_type == DT_DIR) == PathClass::Hidden,
    ensures
        source_entry(r, l.dir, name, d_type, overlay) is None,
        overlay_entry(r, l, name, d_type) is None,
{
}

pub(crate) proof fn lemma_source_list(r: Rules, dir: Seq<u8>, es: Seq<Raw>)
    ensures
        source_list(r, dir, es).dir == dir,
        source_list(r, dir, es).from_source == source_list(r, dir, es).children.len(),
    decreases es.len(),
{
    if es.len() > 0 {
        lemma_source_list(r, dir, es.drop_last());
    }
}

pub(crate) proof fn lemma_overlay_list(r: Rules, l: DirList, es: Seq<Raw>)
    requires
        l.from_source <= l.children.len(),
    ensures
        overlay_list(r, l, es).dir == l.dir,
        overlay_list(r, l, es).from_source == l.from_source,
        l.children.is_prefix_of(overlay_list(r, l, es).children),
    decreases es.len(),
{
    if es.len() > 0 {
        lemma_overlay_list(r, l, es.drop_last());
    }
}

/// Whatever the source tree has and the rules do not hide or keep in the overlay is in
/// the listing of its directory.
pub proof fn law_listing_complete(
    r: Rules,
    dir: Seq<u8>,
    source: Seq<Raw>,
    overlay: Seq<Raw>,
    i: int,
)
    requires
        0 <= i < source.len(),
        !is_dots(source[i].name),
        r.class_of(entry_path(dir, source[i].name), source[i].d_type == DT_DIR)
            != PathClass::Hidden,
        r.class_of(entry_path(dir, source[i].name), source[i].d_type == DT_DIR)
            != PathClass::WritableOverlay,
    ensures
        list_of(r, dir, source, overlay).children.contains(
            (Shown {
                path: entry_path(dir, source[i].name),
                name: text_form(source[i].name),
                kind: entry_kind(source[i].d_type),
            }),
        ),
{
    let e = Shown {
        path: entry_path(dir, source[i].name),
        name: text_form(source[i].name),
        kind: entry_kind(source[i].d_type),
    };
    lemma_source_listed(r, dir, source, i, e);
    let l = source_list(r, dir, source);
    lemma_source_list(r, dir, source);
    lemma_overlay_list(r, l, overlay);
    let all = list_of(r, dir, source, overlay).children;
    let j = choose|j: int| 0 <= j < l.children.len() && l.children[j] == e;
    assert(all[j] == e);
}

proof fn lemma_source_listed(r: Rules, dir: Seq<u8>, es: Seq<Raw>, i: int, e: Shown)
    requires
        0 <= i < es.len(),
        source_entry(r, dir, es[i].name, es[i].d_type, es[i].overlay) == Some(e),
    ensures
        source_list(r, dir, es).children.contains(e),
    decreases es.len(),
{
    let before = source_list(r, dir, es.drop_last()).children;
    let now = source_list(r, dir, es).children;
    if i == es.len() - 1 {
        assert(now.last() == e);
    } else {
        lemma_source_listed(r, dir, es.drop_last(), i, e);
        let j = choose|j: int| 0 <= j < before.len() && before[j] == e;
        assert(now[j] == e);
    }
}

/// Whether an entry in a listing is one that the rules let be seen.
pub open spec fn may_be_listed(r: Rules, dir: Seq<u8>, c: Shown, e: Raw) -> bool {
    !is_dots(e.name) && c.path == entry_path(dir, e.name) && c.name == text_form(e.name)
        && r.class_of(c.path, e.d_type == DT_DIR) != PathClass::Hidden
}

/// Every entry of a listing is one of the directory's, in the source tree or in the
/// overlay, that the rules do not hide.
pub proof fn law_listing_sound(
    r: Rules,
    dir: Seq<u8>,
    source: Seq<Raw>,
    overlay: Seq<Raw>,
    c: Shown,
)
    requires
        list_of(r, dir, source, overlay).children.contains(c),
    ensures
        (exists|i: int| 0 <= i < source.len() && may_be_listed(r, dir, c, #[trigger] source[i]))
            || (exists|i: int|
            0 <= i < overlay.len() && may_be_listed(r, dir, c, #[trigger] overlay[i])),
    decreases source.len() + overlay.len(),
{
    let now = list_of(r, dir, source, overlay).children;
    let k = choose|k: int| 0 <= k < now.len() && now[k] == c;
    lemma_source_list(r, dir, source);
    if overlay.len() > 0 {
        let front = overlay.drop_last();
        let before = list_of(r, dir, source, front);
        lemma_overlay_list(r, source_list(r, dir, source), front);
        if k < before.children.len() {
            assert(before.children[k] == c);
            law_listing_sound(r, dir, source, front, c);
            if exists|i: int| 0 <= i < front.len() && may_be_listed(r, dir, c, #[trigger] front[i]) {
                let i = choose|i: int|
                    0 <= i < front.len() && may_be_listed(r, dir, c, #[trigger] front[i]);
                assert(may_be_listed(r, dir, c, overlay[i]));
            }
        } else {
            assert(may_be_listed(r, dir, c, overlay[overlay.len() - 1]));
        }
    } else if source.len() > 0 {
        let front = source.drop_last();
        let before = list_of(r, dir, front, overlay);
        lemma_source_list(r, dir, front);
        if k < before.children.len() {
            assert(before.children[k] == c);
            law_listing_sound(r, dir, front, overlay, c);
            let i = choose|i: int|
                0 <= i < front.len() && may_be_listed(r, dir, c, #[trigger] front[i]);
            assert(may_be_listed(r, dir, c, source[i]));
        } else {
            assert(may_be_listed(r, dir, c, source[source.len() - 1]));
        }
    }
}

/// What the source tree shows, the overlay does not show again.
pub proof fn law_listing_overlay_new(r: Rules, l: DirList, name: Seq<u8>, d_type: u8)
    ensures
        overlay_entry(r, l, name, d_type) matches Some(c) ==> !has_name(
            l.children,
            l.from_source,
            c.name,
        ),
{
}

/// What is blocked is shown without permissions, and cannot be opened, written, made,
/// removed or renamed.
pub proof fn law_blocked_denied(
    flags: i32,
    other: PathClass,
    source: Option<FileStat>,
    overlay: Option<FileStat>,
    ino: u64,
    s: FileStat,
)
    ensures
        shown(PathClass::Blocked, source, overlay) == source,
        shown_attr(PathClass::Blocked, ino, s).perm == 0,
        open_answer(PathClass::Blocked, flags) == Err::<Root, i32>(EACCES),
        write_answer(PathClass::Blocked) == Err::<Root, i32>(EACCES),
        dir_answer(PathClass::Blocked) == Err::<(), i32>(EACCES),
        link_answer(PathClass::Blocked) == Err::<(), i32>(EACCES),
        other != PathClass::Hidden ==> rename_answer(PathClass::Blocked, other) == Err::<(), i32>(
            EACCES,
        ) && rename_answer(other, PathClass::Blocked) == Err::<(), i32>(EACCES),
{
}

/// A `.gitignore` can be read and nothing else.
pub proof fn law_gitignore_read_only(flags: i32, other: PathClass)
    ensures
        open_answer(PathClass::GitignoreFile, flags) == (if asks_write(flags) {
            Err::<Root, i32>(EACCES)
        } else {
            Ok::<Root, i32>(Root::Source)
        }),
        write_answer(PathClass::GitignoreFile) == Err::<Root, i32>(EACCES),
        dir_answer(PathClass::GitignoreFile) == Err::<(), i32>(EACCES),
        other != PathClass::Hidden ==> rename_answer(PathClass::GitignoreFile, other) == Err::<
            (),
            i32,
        >(EACCES) && rename_answer(other, PathClass::GitignoreFile) == Err::<(), i32>(EACCES),
{
}

/// Whatever may be changed in the source tree passes through.
pub proof fn law_source_changes_pass_through(class: PathClass, other: PathClass, flags: i32)
    ensures
        write_answer(class) == Ok::<Root, i32>(Root::Source) ==> class == PathClass::Passthrough,
        dir_answer(class) is Ok ==> class == PathClass::Passthrough,
        rename_answer(class, other) is Ok ==> class == PathClass::Passthrough && other
            == PathClass::Passthrough,
        open_answer(class, flags) == Ok::<Root, i32>(Root::Source) && asks_write(flags) ==> class
            == PathClass::Passthrough,
{
}

/// What passes through is served from the source tree, with its own permissions.
pub proof fn law_passthrough(
    flags: i32,
    source: Option<FileStat>,
    overlay: Option<FileStat>,
    ino: u64,
    s: FileStat,
)
    ensures
        shown(PathClass::Passthrough, source, overlay) == source,
        shown_attr(PathClass::Passthrough, ino, s) == attr_of(ino, s),
        open_answer(PathClass::Passthrough, flags) == Ok::<Root, i32>(Root::Source),
        write_answer(PathClass::Passthrough) == Ok::<Root, i32>(Root::Source),
        dir_answer(PathClass::Passthrough) is Ok,
        link_answer(PathClass::Passthrough) is Ok,
        rename_answer(PathClass::Passthrough, PathClass::Passthrough) is Ok,
{
}

/// What lives in the overlay is never served from the source tree.
pub proof fn law_overlay_apart(
    flags: i32,
    source: Option<FileStat>,
    overlay: Option<FileStat>,
)
    ensures
        shown(PathClass::WritableOverlay, source, overlay) == overlay,
        open_answer(PathClass::WritableOverlay, flags) == Ok::<Root, i32>(Root::Overlay),
        write_answer(PathClass::WritableOverlay) == Ok::<Root, i32>(Root::Overlay),
        link_answer(PathClass::WritableOverlay) is Err,
{
}

/// The directory and the name by which a file is made, opened or removed are the file's
/// own.
pub proof fn law_place_names_path(rel: Seq<u8>)
    ensures
        spot_of(rel) matches Some(s) ==> components(joined(s.dir, s.name)) == components(rel)
            && is_plain(s.name),
{
    law_parent_and_name(rel);
}

/// A link into the source tree leads to the same place in the mount.
pub proof fn law_link_into_mount(source: Seq<u8>, mountpoint: Seq<u8>, rest: Seq<u8>)
    requires
        is_absolute(source),
        is_plain(rest),
    ensures
        target_in_mount(joined(source, rest), source, mountpoint) == joined(mountpoint, rest),
{
    law_strip_joined(source, rest);
    crate::path_laws::lemma_plain_relative(rest);
    assert(joined(source, rest)[0] == source[0]);
}

/// A link that does not lead into the source tree is left as it is.
pub proof fn law_link_elsewhere(target: Seq<u8>, source: Seq<u8>, mountpoint: Seq<u8>)
    requires
        !is_absolute(target) || !crate::path::starts_with(target, source),
    ensures
        target_in_mount(target, source, mountpoint) == target,
{
}

/// A path keeps its inode number however often it is looked up.
pub proof fn law_number_stable(t: Inodes, rel: Seq<u8>, other: Seq<u8>)
    requires
        t.consistent(),
        t.next < u64::MAX,
    ensures
        t.assigned(rel).number(rel) == t.number(rel),
        t.assigned(rel).assigned(other).number(rel) == t.number(rel),
{
}

/// Paths with different components have different inode numbers.
pub proof fn law_numbers_distinct(t: Inodes, a: Seq<u8>, b: Seq<u8>)
    requires
        t.consistent(),
        t.next < u64::MAX,
        components(a) != components(b),
    ensures
        t.assigned(a).number(b) != t.number(a),
{
    let u = t.assigned(a);
    let i = t.number(a);
    if t.index.contains_key(components(a)) {
        assert(t.paths.contains_key(t.index[components(a)]));
    }
    if u.index.contains_key(components(b)) {
        assert(t.index.contains_key(components(b)));
        assert(t.paths.contains_key(t.index[components(b)]));
    }
}

/// Looking up a path and removing it keep the numbers consistent.
pub proof fn law_numbers_consistent(t: Inodes, rel: Seq<u8>)
    requires
        t.consistent(),
        t.next < u64::MAX,
    ensures
        t.assigned(rel).consistent(),
        t.removed(rel).consistent(),
        t.assigned(rel).paths.contains_key(t.number(rel)),
        components(t.assigned(rel).paths[t.number(rel)]) == components(rel),
{
    let u = t.assigned(rel);
    assert forall|k: Seq<Seq<u8>>| #[trigger] u.index.contains_key(k) implies u.paths.contains_key(
        u.index[k],
    ) && components(u.paths[u.index[k]]) == k by {
        if t.index.contains_key(k) {
            assert(t.paths.contains_key(t.index[k]));
        }
    }
    assert forall|i: u64| #[trigger] u.paths.contains_key(i) implies i < u.next by {
        if i != t.next {
            assert(t.paths.contains_key(i));
        }
    }
    let v = t.removed(rel);
    assert forall|k: Seq<Seq<u8>>| #[trigger] v.index.contains_key(k) implies v.paths.contains_key(
        v.index[k],
    ) && components(v.paths[v.index[k]]) == k by {
        assert(t.index.contains_key(k));
        assert(t.paths.contains_key(t.index[k]));
        if t.index.contains_key(components(rel)) {
            assert(t.paths.contains_key(t.index[components(rel)]));
        }
    }
    assert forall|i: u64| #[trigger] v.paths.contains_key(i) implies i < v.next by {
        assert(t.paths.contains_key(i));
    }
    if t.index.contains_key(components(rel)) {
        assert(t.paths.contains_key(t.index[components(rel)]));
    }
}

/// A path that was removed has no number, and its number stands for nothing.
pub proof fn law_removed_gone(t: Inodes, rel: Seq<u8>)
    requires
        t.index.contains_key(components(rel)),
    ensures
        !t.removed(rel).index.contains_key(components(rel)),
        !t.removed(rel).paths.contains_key(t.index[components(rel)]),
{
}

/// A renamed path keeps its inode number, and so does what lies below a renamed
/// directory.
pub proof fn law_rename_keeps_numbers(
    t: Inodes,
    old_rel: Seq<u8>,
    new_rel: Seq<u8>,
    is_dir: bool,
    k: Seq<Seq<u8>>,
)
    requires
        t.index.contains_key(k),
        key_moves(k, components(old_rel), is_dir),
    ensures
        ({
            let to = rekeyed(k, components(old_rel), components(new_rel));
            t.renamed(old_rel, new_rel, is_dir).index.contains_key(to) && t.renamed(
                old_rel,
                new_rel,
                is_dir,
            ).index[to] == t.index[k]
        }),
{
    let a = components(old_rel);
    let b = components(new_rel);
    let to = rekeyed(k, a, b);
    assert(to.skip(b.len() as int) =~= k.skip(a.len() as int));
    assert(a + k.skip(a.len() as int) =~= k);
    assert(b.is_prefix_of(to));
    assert(rekeyed(to, b, a) == k);
    assert(t.arrives(to, a, b, is_dir));
}

/// A rename leaves no number behind under the old name.
pub proof fn law_rename_no_ghosts(
    t: Inodes,
    old_rel: Seq<u8>,
    new_rel: Seq<u8>,
    is_dir: bool,
    k: Seq<Seq<u8>>,
)
    requires
        key_moves(k, components(old_rel), is_dir),
        !components(new_rel).is_prefix_of(k),
    ensures
        !t.renamed(old_rel, new_rel, is_dir).index.contains_key(k),
{
}

/// A rename leaves other paths alone.
pub proof fn law_rename_spares_others(
    t: Inodes,
    old_rel: Seq<u8>,
    new_rel: Seq<u8>,
    is_dir: bool,
    k: Seq<Seq<u8>>,
)
    requires
        t.index.contains_key(k),
        !key_moves(k, components(old_rel), is_dir),
        !components(new_rel).is_prefix_of(k),
    ensures
        t.renamed(old_rel, new_rel, is_dir).index.contains_key(k),
        t.renamed(old_rel, new_rel, is_dir).index[k] == t.index[k],
{
}

/// Renaming keeps the numbers consistent.
pub proof fn law_rename_consistent(
    t: Inodes,
    old_rel: Seq<u8>,
    new_rel: Seq<u8>,
    is_dir: bool,
)
    requires
        t.consistent(),
        components(old_rel).len() > 0,
    ensures
        t.renamed(old_rel, new_rel, is_dir).consistent(),
{
    crate::inodes::lemma_renamed_consistent(t, old_rel, new_rel, is_dir);
}

/// Whether every path in use has names only, or is that of the root.
pub open spec fn names_only(t: Inodes) -> bool {
    forall|i: u64| #[trigger]
        t.paths.contains_key(i) ==> t.paths[i].len() == 0 || is_plain(t.paths[i])
}

/// Looking up, removing and renaming paths with names only keeps to such paths.
pub proof fn law_names_only(t: Inodes, rel: Seq<u8>, new_rel: Seq<u8>, is_dir: bool)
    requires
        names_only(t),
        is_plain(rel),
        is_plain(new_rel),
    ensures
        names_only(root_only()),
        names_only(t.assigned(rel)),
        names_only(t.removed(rel)),
        names_only(t.renamed(rel, new_rel, is_dir)),
{
    let now = t.renamed(rel, new_rel, is_dir);
    let a = components(rel);
    assert forall|i: u64| #[trigger] now.paths.contains_key(i) implies now.paths[i].len() == 0
        || is_plain(now.paths[i]) by {
        assert(t.paths.contains_key(i));
        let p = t.paths[i];
        if t.moves(i, a, is_dir) && components(p) != a {
            assert(components(p).take(a.len() as int) =~= a);
            if p.len() == 0 {
                lemma_empty_path();
                assert(p =~= Seq::<u8>::empty());
                assert(a =~= components(p));
            }
            law_plain_stripped(p, rel);
            law_plain_joined(new_rel, strip(p, rel)->0);
        }
    }
}

/// The attributes that a path is looked up with are those that its inode number is asked
/// for afterwards, as long as the file and the rules stay as they are.
pub proof fn law_getattr_after_lookup(
    r: Rules,
    t: Inodes,
    rel: Seq<u8>,
    source: Option<FileStat>,
    overlay: Option<FileStat>,
)
    requires
        t.consistent(),
        names_only(t),
        is_plain(rel) || rel.len() == 0,
    ensures
        attr_answer(r, t.number(rel), rel, source, overlay) matches Ok(a) ==> {
            let now = t.assigned(rel);
            &&& now.paths.contains_key(a.ino)
            &&& attr_answer(r, a.ino, now.paths[a.ino], source, overlay) == Ok::<FileAttr, i32>(a)
        },
{
    let now = t.assigned(rel);
    let n = t.number(rel);
    if t.index.contains_key(components(rel)) {
        law_plain_same(rel, t.paths[n]);
    }
    assert(now.paths.contains_key(n) && now.paths[n] == rel);
}

/// Whether the names of entries are UTF-8, and no two are the same.
pub open spec fn distinct_names(es: Seq<Raw>) -> bool {
    &&& forall|i: int| 0 <= i < es.len() ==> valid_utf8((#[trigger] es[i]).name)
    &&& forall|i: int, j: int|
        0 <= i < j < es.len() ==> (#[trigger] es[i]).name != (#[trigger] es[j]).name
}

/// Whether each entry has the name of one of the directory's.
spec fn named_after(cs: Seq<Shown>, from: int, es: Seq<Raw>) -> bool {
    forall|i: int|
        from <= i < cs.len() ==> exists|k: int|
            0 <= k < es.len() && (#[trigger] cs[i]).name == text_form((#[trigger] es[k]).name)
}

/// Whether no two entries have the same name.
pub open spec fn all_distinct(cs: Seq<Shown>) -> bool {
    forall|i: int, j: int|
        0 <= i < j < cs.len() ==> (#[trigger] cs[i]).name != (#[trigger] cs[j]).name
}

proof fn lemma_texts_distinct(a: Seq<u8>, b: Seq<u8>)
    requires
        valid_utf8(a),
        valid_utf8(b),
        text_form(a) == text_form(b),
    ensures
        a == b,
{
    vstd::utf8::decode_utf8_encode_utf8(a);
    vstd::utf8::decode_utf8_encode_utf8(b);
}

proof fn lemma_front_distinct(es: Seq<Raw>)
    requires
        es.len() > 0,
        distinct_names(es),
    ensures
        distinct_names(es.drop_last()),
        forall|k: int|
            0 <= k < es.len() - 1 ==> text_form((#[trigger] es.drop_last()[k]).name) != text_form(
                es.last().name,
            ),
{
    let front = es.drop_last();
    assert forall|i: int| 0 <= i < front.len() implies valid_utf8((#[trigger] front[i]).name) by {
        assert(front[i] == es[i]);
    }
    assert forall|i: int, j: int| 0 <= i < j < front.len() implies (#[trigger] front[i]).name != (
    #[trigger] front[j]).name by {
        assert(front[i] == es[i] && front[j] == es[j]);
    }
    assert forall|k: int| 0 <= k < es.len() - 1 implies text_form((#[trigger] front[k]).name)
        != text_form(es.last().name) by {
        assert(front[k] == es[k]);
        let last = es.len() - 1;
        assert(es[k].name != es[last].name);
        if text_form(es[k].name) == text_form(es[last].name) {
            lemma_texts_distinct(es[k].name, es[last].name);
        }
    }
}

proof fn lemma_source_distinct(r: Rules, dir: Seq<u8>, es: Seq<Raw>)
    requires
        distinct_names(es),
    ensures
        all_distinct(source_list(r, dir, es).children),
        named_after(source_list(r, dir, es).children, 0, es),
    decreases es.len(),
{
    if es.len() > 0 {
        lemma_front_distinct(es);
        lemma_source_distinct(r, dir, es.drop_last());
        lemma_more_named(
            source_list(r, dir, es.drop_last()).children,
            source_list(r, dir, es).children,
            0,
            es,
        );
    }
}

proof fn lemma_more_named(before: Seq<Shown>, now: Seq<Shown>, from: int, es: Seq<Raw>)
    requires
        es.len() > 0,
        0 <= from <= before.len(),
        all_distinct(before),
        named_after(before, from, es.drop_last()),
        now == before || (exists|c: Shown|
            now == #[trigger] before.push(c) && c.name == text_form(es.last().name)),
        forall|i: int| 0 <= i < from ==> (#[trigger] before[i]).name != text_form(es.last().name)
            || now == before,
        forall|k: int|
            0 <= k < es.len() - 1 ==> text_form((#[trigger] es.drop_last()[k]).name) != text_form(
                es.last().name,
            ),
    ensures
        all_distinct(now),
        named_after(now, from, es),
{
    let front = es.drop_last();
    assert forall|i: int| from <= i < now.len() implies exists|k: int|
        0 <= k < es.len() && (#[trigger] now[i]).name == text_form((#[trigger] es[k]).name) by {
        if i < before.len() {
            assert(before[i] == now[i]);
            let k = choose|k: int|
                0 <= k < front.len() && before[i].name == text_form((#[trigger] front[k]).name);
            assert(es[k] == front[k]);
        } else {
            assert(es[es.len() - 1] == es.last());
        }
    }
    if now != before {
        assert forall|i: int, j: int| 0 <= i < j < now.len() implies (#[trigger] now[i]).name != (
        #[trigger] now[j]).name by {
            assert(now[i] == before[i]);
            if j < before.len() {
                assert(now[j] == before[j]);
            } else if i >= from {
                let k = choose|k: int|
                    0 <= k < front.len() && before[i].name == text_form((#[trigger] front[k]).name);
                assert(text_form(front[k].name) != text_form(es.last().name));
            }
        }
    }
}

proof fn lemma_overlay_distinct(r: Rules, l: DirList, es: Seq<Raw>)
    requires
        distinct_names(es),
        all_distinct(l.children),
        l.from_source == l.children.len(),
    ensures
        all_distinct(overlay_list(r, l, es).children),
        named_after(overlay_list(r, l, es).children, l.from_source as int, es),
        overlay_list(r, l, es).from_source == l.from_source,
        l.children.is_prefix_of(overlay_list(r, l, es).children),
    decreases es.len(),
{
    if es.len() > 0 {
        lemma_front_distinct(es);
        lemma_overlay_distinct(r, l, es.drop_last());
        let before = overlay_list(r, l, es.drop_last());
        let now = overlay_list(r, l, es);
        lemma_more_named(before.children, now.children, l.from_source as int, es);
    }
}

/// A listing shows each name once, where the directory has each once in the source tree
/// and once in the overlay. Holds of names that are UTF-8.
pub proof fn law_listing_distinct(r: Rules, dir: Seq<u8>, source: Seq<Raw>, overlay: Seq<Raw>)
    requires
        distinct_names(source),
        distinct_names(overlay),
    ensures
        all_distinct(list_of(r, dir, source, overlay).children),
{
    lemma_source_distinct(r, dir, source);
    lemma_source_list(r, dir, source);
    lemma_overlay_distinct(r, source_list(r, dir, source), overlay);
}

/// What listing the rest of a directory gives out, by the numbers as they are at the end.
pub(crate) proof fn lemma_listed_from(t: Inodes, ino: u64, l: DirList, offset: i64)
    requires
        0 <= offset <= l.children.len() + 2 < i64::MAX,
        offset <= 1 ==> parent_number(t, l.dir) == parent_number(
            numbers_after_all(t, ino, l, offset),
            l.dir,
        ),
    ensures
        ({
            let end = numbers_after_all(t, ino, l, offset);
            let run = listed_from(t, ino, l, offset);
            &&& run.len() == l.children.len() + 2 - offset
            &&& forall|j: int|
                0 <= j < run.len() ==> Some(#[trigger] run[j]) == listed(
                    end,
                    ino,
                    l,
                    (offset + j) as i64,
                )
            &&& forall|k: Seq<Seq<u8>>| #[trigger]
                t.index.contains_key(k) ==> end.index.contains_key(k) && end.index[k] == t.index[k]
            &&& forall|i: int|
                offset - 2 <= i < l.children.len() && 0 <= i ==> end.index.contains_key(
                    components((#[trigger] l.children[i]).path),
                )
            &&& forall|k: Seq<Seq<u8>>| #[trigger]
                end.index.contains_key(k) ==> t.index.contains_key(k) || exists|i: int|
                    0 <= i < l.children.len() && components((#[trigger] l.children[i]).path) == k
        }),
    decreases l.children.len() + 2 - offset,
{
    let end = numbers_after_all(t, ino, l, offset);
    let run = listed_from(t, ino, l, offset);
    if offset < l.children.len() + 2 {
        let e = listed(t, ino, l, offset)->0;
        let now = numbers_after(t, l, offset);
        assert(e.offset == offset + 1);
        lemma_listed_from(now, ino, l, e.offset);
        let rest = listed_from(now, ino, l, e.offset);
        assert(run == seq![e] + rest);
        if offset >= 2 {
            let k = components(l.children[offset - 2].path);
            assert(now.index.contains_key(k));
            assert(end.index[k] == now.index[k]);
        }
        assert(Some(e) == listed(end, ino, l, offset));
        assert forall|j: int| 0 <= j < run.len() implies Some(#[trigger] run[j]) == listed(
            end,
            ino,
            l,
            (offset + j) as i64,
        ) by {
            if j > 0 {
                assert(run[j] == rest[j - 1]);
                assert((e.offset + (j - 1)) as i64 == (offset + j) as i64);
            }
        }
        assert forall|i: int| offset - 2 <= i < l.children.len() && 0 <= i implies end.index.contains_key(
            components((#[trigger] l.children[i]).path),
        ) by {
            if i == offset - 2 {
                assert(now.index.contains_key(components(l.children[i].path)));
            }
        }
        assert forall|k: Seq<Seq<u8>>| #[trigger]
            end.index.contains_key(k) implies t.index.contains_key(k) || exists|i: int|
            0 <= i < l.children.len() && components((#[trigger] l.children[i]).path) == k by {
            if now.index.contains_key(k) && !t.index.contains_key(k) {
                assert(components(l.children[offset - 2].path) == k);
            }
        }
        assert forall|k: Seq<Seq<u8>>| #[trigger]
            t.index.contains_key(k) implies end.index.contains_key(k) && end.index[k]
            == t.index[k] by {
            assert(now.index.contains_key(k));
        }
    }
}

/// Where every entry has its number already, listing gives out no new one.
proof fn lemma_numbers_stay(t: Inodes, ino: u64, l: DirList, offset: i64)
    requires
        0 <= offset <= l.children.len() + 2 < i64::MAX,
        forall|i: int|
            0 <= i < l.children.len() ==> t.index.contains_key(
                components((#[trigger] l.children[i]).path),
            ),
    ensures
        numbers_after_all(t, ino, l, offset) == t,
    decreases l.children.len() + 2 - offset,
{
    if offset < l.children.len() + 2 {
        let e = listed(t, ino, l, offset)->0;
        if offset >= 2 {
            assert(t.index.contains_key(components(l.children[offset - 2].path)));
        }
        lemma_numbers_stay(t, ino, l, e.offset);
    }
}

/// A listing that is taken up again at an offset goes on as the first one did, with the
/// same numbers; and the offset of each entry is its place.
pub proof fn law_listing_resumed(t: Inodes, ino: u64, l: DirList, offset: i64)
    requires
        0 <= offset <= l.children.len() + 2 < i64::MAX,
        children_below(l),
    ensures
        listed_from(t, ino, l, 0).len() == l.children.len() + 2,
        forall|i: int|
            0 <= i < l.children.len() + 2 ==> (#[trigger] listed_from(t, ino, l, 0)[i]).offset == i
                + 1,
        listed_from(numbers_after_all(t, ino, l, 0), ino, l, offset) == listed_from(
            t,
            ino,
            l,
            0,
        ).skip(offset as int),
{
    let end = numbers_after_all(t, ino, l, 0);
    lemma_above_stays(t, ino, l);
    lemma_listed_from(t, ino, l, 0);
    lemma_numbers_stay(end, ino, l, offset);
    lemma_listed_from(end, ino, l, offset);
    let first = listed_from(t, ino, l, 0);
    let again = listed_from(end, ino, l, offset);
    assert forall|j: int| 0 <= j < again.len() implies again[j] == first.skip(offset as int)[j] by {
        assert(Some(again[j]) == listed(end, ino, l, (offset + j) as i64));
        assert(Some(first[offset + j]) == listed(end, ino, l, (0 + (offset + j)) as i64));
    }
    assert(again =~= first.skip(offset as int));
}

/// Listing a directory leaves the number of the directory above it as it is.
pub(crate) proof fn lemma_above_stays(t: Inodes, ino: u64, l: DirList)
    requires
        l.children.len() + 2 < i64::MAX,
        children_below(l),
    ensures
        parent_number(t, l.dir) == parent_number(numbers_after_all(t, ino, l, 0), l.dir),
{
    let end = numbers_after_all(t, ino, l, 2);
    assert(numbers_after_all(t, ino, l, 0) == numbers_after_all(t, ino, l, 1));
    assert(numbers_after_all(t, ino, l, 1) == end);
    lemma_listed_from(t, ino, l, 2);
    law_parent_shorter(l.dir);
    lemma_empty_path();
    let up = match parent(l.dir) {
        Some(p) => p,
        None => Seq::<u8>::empty(),
    };
    assert(components(up).len() <= components(l.dir).len());
    if end.index.contains_key(components(up)) && !t.index.contains_key(components(up)) {
        let i = choose|i: int|
            0 <= i < l.children.len() && components((#[trigger] l.children[i]).path)
                == components(up);
        assert(components(l.children[i].path).len() > components(l.dir).len());
    }
}

/// The entries of a listing lie below the directory, where their names as text have no `/`
/// and name something.
pub proof fn law_listing_below(r: Rules, dir: Seq<u8>, source: Seq<Raw>, overlay: Seq<Raw>)
    requires
        forall|i: int|
            0 <= i < source.len() ==> is_dots((#[trigger] source[i]).name) || is_plain(
                encode_utf8(text_form(source[i].name)),
            ),
        forall|i: int|
            0 <= i < overlay.len() ==> is_dots((#[trigger] overlay[i]).name) || is_plain(
                encode_utf8(text_form(overlay[i].name)),
            ),
    ensures
        children_below(list_of(r, dir, source, overlay)),
{
    let l = list_of(r, dir, source, overlay);
    lemma_list_dir(r, dir, source, overlay);
    assert forall|i: int| 0 <= i < l.children.len() implies components(
        (#[trigger] l.children[i]).path,
    ).len() > components(l.dir).len() by {
        let c = l.children[i];
        assert(l.children.contains(c));
        law_listing_sound(r, dir, source, overlay, c);
        let e = if exists|k: int|
            0 <= k < source.len() && may_be_listed(r, dir, c, #[trigger] source[k]) {
            let k = choose|k: int|
                0 <= k < source.len() && may_be_listed(r, dir, c, #[trigger] source[k]);
            source[k]
        } else {
            let k = choose|k: int|
                0 <= k < overlay.len() && may_be_listed(r, dir, c, #[trigger] overlay[k]);
            overlay[k]
        };
        law_components_joined(dir, encode_utf8(text_form(e.name)));
        lemma_pieces_len(encode_utf8(text_form(e.name)));
    }
}

pub(crate) proof fn lemma_list_dir(r: Rules, dir: Seq<u8>, source: Seq<Raw>, overlay: Seq<Raw>)
    ensures
        list_of(r, dir, source, overlay).dir == dir,
    decreases source.len() + overlay.len(),
{
    if overlay.len() > 0 {
        lemma_list_dir(r, dir, source, overlay.drop_last());
    } else if source.len() > 0 {
        lemma_list_dir(r, dir, source.drop_last(), overlay);
    }
}

/// A directory that is made and removed again leaves nothing behind: its path has no
/// number, its number no path. Made once more, it gets a greater one.
pub proof fn law_directory_made_again(t: Inodes, class: PathClass, rel: Seq<u8>)
    requires
        t.consistent(),
        t.next < u64::MAX,
        class == PathClass::Passthrough,
    ensures
        dir_answer(class) is Ok,
        ({
            let made = t.number(rel);
            let gone = t.assigned(rel).removed(rel);
            &&& !gone.index.contains_key(components(rel))
            &&& !gone.paths.contains_key(made)
            &&& gone.number(rel) > made
            &&& gone.assigned(rel).paths.contains_key(gone.number(rel))
        }),
{
    let k = components(rel);
    if t.index.contains_key(k) {
        assert(t.paths.contains_key(t.index[k]));
    }
}

} // verus!
