//! What holds of directory listings.

use crate::attr::FileKind;
use crate::attr_laws::law_kind_bits;
use crate::fs_laws::{
    law_numbers_consistent, lemma_above_stays, lemma_list_dir, lemma_listed_from,
    lemma_overlay_list, lemma_source_list,
};
use crate::inodes::Inodes;
use crate::listing::{
    children_below, entry_kind, entry_path, is_dots, list_of, listed, listed_from, numbers_after,
    numbers_after_all, source_list, DirList, Raw, Shown,
};
use crate::path::{components, joined, parent};
use crate::rules::{PathClass, Rules};
use crate::text::text_form;
use vstd::prelude::*;
use vstd::utf8::{encode_utf8, valid_utf8};

verus! {

/// The type of an entry tells directories and links apart from anything else.
pub proof fn law_entry_kinds(d_type: u8)
    ensures
        entry_kind(d_type) == FileKind::Directory <==> d_type == 4,
        entry_kind(d_type) == FileKind::Symlink <==> d_type == 10,
        entry_kind(d_type) == FileKind::RegularFile <==> d_type != 4 && d_type != 10,
{
}

/// Only the directory itself and the one above it are left out by name.
pub proof fn law_dots(name: Seq<u8>)
    ensures
        is_dots(name) <==> (name.len() == 1 && name[0] == 46) || (name.len() == 2 && name[0] == 46
            && name[1] == 46),
{
    if name.len() == 1 && name[0] == 46 {
        assert(name =~= seq![46u8]);
    }
    if name.len() == 2 && name[0] == 46 && name[1] == 46 {
        assert(name =~= seq![46u8, 46u8]);
    }
}

/// An entry whose name is UTF-8 has its own name behind the directory.
pub proof fn law_entry_path(dir: Seq<u8>, name: Seq<u8>)
    requires
        valid_utf8(name),
    ensures
        entry_path(dir, name) == joined(dir, name),
{
    vstd::utf8::decode_utf8_encode_utf8(name);
}

/// Whether an entry is shown because the source tree has it: it is not hidden, and it has
/// the kind that the source tree says; where it lives in the overlay, it is there and has
/// the kind that the overlay says.
pub open spec fn comes_from_source(r: Rules, dir: Seq<u8>, c: Shown, e: Raw) -> bool {
    let class = r.class_of(c.path, e.d_type == 4);
    &&& e.name != seq![46u8] && e.name != seq![46u8, 46u8]
    &&& c.path == joined(dir, encode_utf8(text_form(e.name)))
    &&& c.name == text_form(e.name)
    &&& class != PathClass::Hidden
    &&& class == PathClass::WritableOverlay ==> e.overlay is Some && (c.kind == FileKind::Directory
        <==> (e.overlay->0.mode / 4096) % 16 == 4) && c.kind != FileKind::Symlink
    &&& class != PathClass::WritableOverlay ==> (c.kind == FileKind::Directory <==> e.d_type == 4)
        && (c.kind == FileKind::Symlink <==> e.d_type == 10)
}

/// Whether an entry is shown because the overlay has it: it lives there, and has the kind
/// that the overlay says.
pub open spec fn comes_from_overlay(r: Rules, dir: Seq<u8>, c: Shown, e: Raw) -> bool {
    &&& e.name != seq![46u8] && e.name != seq![46u8, 46u8]
    &&& c.path == joined(dir, encode_utf8(text_form(e.name)))
    &&& c.name == text_form(e.name)
    &&& r.class_of(c.path, e.d_type == 4) == PathClass::WritableOverlay
    &&& (c.kind == FileKind::Directory <==> e.d_type == 4)
    &&& c.kind != FileKind::Symlink
}

/// Whether an entry of the source tree is to be shown.
pub open spec fn wanted(r: Rules, dir: Seq<u8>, e: Raw) -> bool {
    let class = r.class_of(joined(dir, encode_utf8(text_form(e.name))), e.d_type == 4);
    &&& e.name != seq![46u8] && e.name != seq![46u8, 46u8]
    &&& class != PathClass::Hidden
    &&& class == PathClass::WritableOverlay ==> e.overlay is Some
}

/// What the source tree has and is to be shown is shown, and nothing else that it has.
proof fn lemma_source_exact(r: Rules, dir: Seq<u8>, es: Seq<Raw>)
    ensures
        ({
            let cs = source_list(r, dir, es).children;
            &&& forall|i: int|
                0 <= i < es.len() && wanted(r, dir, #[trigger] es[i]) ==> exists|k: int|
                    0 <= k < cs.len() && comes_from_source(r, dir, #[trigger] cs[k], es[i])
            &&& forall|k: int|
                0 <= k < cs.len() ==> exists|i: int|
                    0 <= i < es.len() && comes_from_source(r, dir, #[trigger] cs[k], #[trigger] es[i])
        }),
    decreases es.len(),
{
    if es.len() > 0 {
        let front = es.drop_last();
        let e = es.last();
        let n = es.len() - 1;
        lemma_source_exact(r, dir, front);
        lemma_source_list(r, dir, front);
        let was = source_list(r, dir, front).children;
        let cs = source_list(r, dir, es).children;
        if e.overlay is Some {
            law_kind_bits(e.overlay->0);
        }
        assert(es[n] == e);
        assert forall|i: int| 0 <= i < es.len() && wanted(r, dir, #[trigger] es[i]) implies exists|
            k: int,
        |
            0 <= k < cs.len() && comes_from_source(r, dir, #[trigger] cs[k], es[i]) by {
            if i < n {
                assert(front[i] == es[i]);
                let k = choose|k: int|
                    0 <= k < was.len() && comes_from_source(r, dir, #[trigger] was[k], front[i]);
                assert(cs[k] == was[k]);
            } else {
                assert(cs.len() == was.len() + 1);
                assert(comes_from_source(r, dir, cs[was.len() as int], es[i]));
            }
        }
        assert forall|k: int| 0 <= k < cs.len() implies exists|i: int|
            0 <= i < es.len() && comes_from_source(r, dir, #[trigger] cs[k], #[trigger] es[i]) by {
            if k < was.len() {
                assert(cs[k] == was[k]);
                let i = choose|i: int|
                    0 <= i < front.len() && comes_from_source(r, dir, was[k], #[trigger] front[i]);
                assert(es[i] == front[i]);
            } else {
                assert(comes_from_source(r, dir, cs[k], es[n]));
            }
        }
    }
}

/// Whether the entries that the source tree gave have a name.
pub open spec fn source_has(r: Rules, dir: Seq<u8>, source: Seq<Raw>, name: Seq<char>) -> bool {
    exists|i: int|
        0 <= i < source.len() && wanted(r, dir, #[trigger] source[i]) && text_form(source[i].name)
            == name
}

proof fn lemma_source_names(r: Rules, dir: Seq<u8>, source: Seq<Raw>, name: Seq<char>)
    ensures
        ({
            let l = source_list(r, dir, source);
            source_has(r, dir, source, name) <==> crate::listing::has_name(
                l.children,
                l.from_source,
                name,
            )
        }),
{
    let l = source_list(r, dir, source);
    let cs = l.children;
    lemma_source_exact(r, dir, source);
    lemma_source_list(r, dir, source);
    if source_has(r, dir, source, name) {
        let i = choose|i: int|
            0 <= i < source.len() && wanted(r, dir, #[trigger] source[i]) && text_form(
                source[i].name,
            ) == name;
        let k = choose|k: int|
            0 <= k < cs.len() && comes_from_source(r, dir, #[trigger] cs[k], source[i]);
        assert(cs[k].name == name);
    }
    if crate::listing::has_name(cs, l.from_source, name) {
        let k = choose|k: int| 0 <= k < l.from_source && (#[trigger] cs[k]).name == name;
        let i = choose|i: int|
            0 <= i < source.len() && comes_from_source(r, dir, cs[k], #[trigger] source[i]);
        assert(wanted(r, dir, source[i]));
    }
}

/// Whether an entry of the overlay is to be shown.
pub open spec fn wanted_over(r: Rules, dir: Seq<u8>, source: Seq<Raw>, e: Raw) -> bool {
    &&& !is_dots(e.name)
    &&& r.class_of(entry_path(dir, e.name), e.d_type == 4) == PathClass::WritableOverlay
    &&& !source_has(r, dir, source, text_form(e.name))
}

proof fn lemma_overlay_step(r: Rules, dir: Seq<u8>, source: Seq<Raw>, es: Seq<Raw>)
    requires
        es.len() > 0,
    ensures
        ({
            let was = list_of(r, dir, source, es.drop_last()).children;
            let now = list_of(r, dir, source, es).children;
            let e = es.last();
            if wanted_over(r, dir, source, e) {
                &&& now.len() == was.len() + 1
                &&& now.drop_last() == was
                &&& comes_from_overlay(r, dir, now.last(), e)
            } else {
                now == was
            }
        }),
{
    let first = source_list(r, dir, source);
    let front = es.drop_last();
    let e = es.last();
    let before = list_of(r, dir, source, front);
    let was = before.children;
    let now = list_of(r, dir, source, es).children;
    lemma_source_list(r, dir, source);
    lemma_overlay_list(r, first, front);
    lemma_source_names(r, dir, source, text_form(e.name));
    if crate::listing::has_name(was, before.from_source, text_form(e.name)) {
        let k = choose|k: int|
            0 <= k < before.from_source && (#[trigger] was[k]).name == text_form(e.name);
        assert(first.children[k] == was[k]);
    }
    if crate::listing::has_name(first.children, first.from_source, text_form(e.name)) {
        let k = choose|k: int|
            0 <= k < first.from_source && (#[trigger] first.children[k]).name == text_form(e.name);
        assert(first.children[k] == was[k]);
    }
    if wanted_over(r, dir, source, e) {
        assert(now.drop_last() =~= was);
    }
}

/// Whether some entry from a place on is shown because of a given one.
spec fn shown_for(r: Rules, dir: Seq<u8>, cs: Seq<Shown>, n: nat, e: Raw) -> bool {
    exists|k: int| n <= k < cs.len() && comes_from_overlay(r, dir, #[trigger] cs[k], e)
}

/// Whether an entry is shown because of one that is to be shown.
spec fn shown_because(r: Rules, dir: Seq<u8>, source: Seq<Raw>, c: Shown, es: Seq<Raw>) -> bool {
    exists|i: int|
        0 <= i < es.len() && wanted_over(r, dir, source, #[trigger] es[i]) && comes_from_overlay(
            r,
            dir,
            c,
            es[i],
        )
}

proof fn lemma_overlay_exact(r: Rules, dir: Seq<u8>, source: Seq<Raw>, es: Seq<Raw>)
    ensures
        source_list(r, dir, source).children.len() <= list_of(r, dir, source, es).children.len(),
        forall|i: int|
            0 <= i < es.len() && wanted_over(r, dir, source, #[trigger] es[i]) ==> shown_for(
                r,
                dir,
                list_of(r, dir, source, es).children,
                source_list(r, dir, source).children.len(),
                es[i],
            ),
        forall|k: int|
            source_list(r, dir, source).children.len() <= k < list_of(
                r,
                dir,
                source,
                es,
            ).children.len() ==> shown_because(
                r,
                dir,
                source,
                #[trigger] list_of(r, dir, source, es).children[k],
                es,
            ),
    decreases es.len(),
{
    let n = source_list(r, dir, source).children.len();
    let cs = list_of(r, dir, source, es).children;
    if es.len() > 0 {
        let front = es.drop_last();
        let last = es.len() - 1;
        let was = list_of(r, dir, source, front).children;
        lemma_overlay_exact(r, dir, source, front);
        lemma_overlay_step(r, dir, source, es);
        assert(forall|k: int| 0 <= k < was.len() ==> cs[k] == was[k]);
        assert forall|i: int|
            0 <= i < es.len() && wanted_over(r, dir, source, #[trigger] es[i]) implies shown_for(
            r,
            dir,
            cs,
            n,
            es[i],
        ) by {
            if i < last {
                assert(front[i] == es[i]);
                let k = choose|k: int|
                    n <= k < was.len() && comes_from_overlay(r, dir, #[trigger] was[k], front[i]);
                assert(comes_from_overlay(r, dir, cs[k], es[i]));
            } else {
                assert(comes_from_overlay(r, dir, cs[was.len() as int], es[i]));
            }
        }
        assert forall|k: int| n <= k < cs.len() implies shown_because(
            r,
            dir,
            source,
            #[trigger] cs[k],
            es,
        ) by {
            if k < was.len() {
                assert(shown_because(r, dir, source, was[k], front));
                let i = choose|i: int|
                    0 <= i < front.len() && wanted_over(r, dir, source, #[trigger] front[i])
                        && comes_from_overlay(r, dir, was[k], front[i]);
                assert(es[i] == front[i]);
            } else {
                assert(es[last] == es.last());
                assert(comes_from_overlay(r, dir, cs[k], es[last]));
            }
        }
    }
}

/// A listing is complete for the source tree: each entry that is not hidden is shown with
/// its name and kind; one that lives in the overlay is shown once it is there.
pub proof fn law_listing_has_source(
    r: Rules,
    dir: Seq<u8>,
    source: Seq<Raw>,
    overlay: Seq<Raw>,
    i: int,
)
    requires
        0 <= i < source.len(),
        wanted(r, dir, source[i]),
    ensures
        exists|k: int|
            0 <= k < list_of(r, dir, source, overlay).children.len() && comes_from_source(
                r,
                dir,
                #[trigger] list_of(r, dir, source, overlay).children[k],
                source[i],
            ),
{
    let first = source_list(r, dir, source);
    let all = list_of(r, dir, source, overlay).children;
    lemma_source_exact(r, dir, source);
    lemma_source_list(r, dir, source);
    lemma_overlay_list(r, first, overlay);
    let k = choose|k: int|
        0 <= k < first.children.len() && comes_from_source(
            r,
            dir,
            #[trigger] first.children[k],
            source[i],
        );
    assert(all[k] == first.children[k]);
}

/// A listing is complete for the overlay: each entry that lives there is shown, with its
/// kind unless the source tree showed one of the same name.
pub proof fn law_listing_has_overlay(
    r: Rules,
    dir: Seq<u8>,
    source: Seq<Raw>,
    overlay: Seq<Raw>,
    i: int,
)
    requires
        0 <= i < overlay.len(),
        !is_dots(overlay[i].name),
        r.class_of(entry_path(dir, overlay[i].name), overlay[i].d_type == 4)
            == PathClass::WritableOverlay,
    ensures
        exists|k: int|
            0 <= k < list_of(r, dir, source, overlay).children.len() && (
            #[trigger] list_of(r, dir, source, overlay).children[k]).name == text_form(
                overlay[i].name,
            ),
        !source_has(r, dir, source, text_form(overlay[i].name)) ==> exists|k: int|
            0 <= k < list_of(r, dir, source, overlay).children.len() && comes_from_overlay(
                r,
                dir,
                #[trigger] list_of(r, dir, source, overlay).children[k],
                overlay[i],
            ),
{
    let all = list_of(r, dir, source, overlay).children;
    let name = text_form(overlay[i].name);
    lemma_overlay_exact(r, dir, source, overlay);
    if source_has(r, dir, source, name) {
        let j = choose|j: int|
            0 <= j < source.len() && wanted(r, dir, #[trigger] source[j]) && text_form(
                source[j].name,
            ) == name;
        law_listing_has_source(r, dir, source, overlay, j);
        let k = choose|k: int|
            0 <= k < all.len() && comes_from_source(r, dir, #[trigger] all[k], source[j]);
        assert(all[k].name == name);
    } else {
        let first = source_list(r, dir, source);
        assert(wanted_over(r, dir, source, overlay[i]));
        assert(shown_for(r, dir, all, first.children.len(), overlay[i]));
        let k = choose|k: int|
            first.children.len() <= k < all.len() && comes_from_overlay(
                r,
                dir,
                #[trigger] all[k],
                overlay[i],
            );
        assert(all[k].name == name);
    }
}

/// A listing shows nothing else: each entry comes from the source tree, or from the overlay
/// where the source tree showed none of that name. What the source tree gave comes first.
pub proof fn law_listing_only(r: Rules, dir: Seq<u8>, source: Seq<Raw>, overlay: Seq<Raw>, k: int)
    requires
        0 <= k < list_of(r, dir, source, overlay).children.len(),
    ensures
        ({
            let l = list_of(r, dir, source, overlay);
            let c = l.children[k];
            &&& l.dir == dir
            &&& l.from_source <= l.children.len()
            &&& k < l.from_source ==> exists|i: int|
                0 <= i < source.len() && comes_from_source(r, dir, c, #[trigger] source[i])
            &&& k >= l.from_source ==> !source_has(r, dir, source, c.name) && exists|i: int|
                0 <= i < overlay.len() && comes_from_overlay(r, dir, c, #[trigger] overlay[i])
        }),
{
    let first = source_list(r, dir, source);
    let l = list_of(r, dir, source, overlay);
    lemma_list_dir(r, dir, source, overlay);
    lemma_source_exact(r, dir, source);
    lemma_source_list(r, dir, source);
    lemma_overlay_list(r, first, overlay);
    lemma_overlay_exact(r, dir, source, overlay);
    if k < l.from_source {
        assert(first.children[k] == l.children[k]);
        let i = choose|i: int|
            0 <= i < source.len() && comes_from_source(
                r,
                dir,
                first.children[k],
                #[trigger] source[i],
            );
        assert(comes_from_source(r, dir, l.children[k], source[i]));
    } else {
        assert(shown_because(r, dir, source, l.children[k], overlay));
    }
}

/// Entries are shown in the order in which they were found, each once: one more adds at
/// most itself, behind the others.
pub proof fn law_listing_order(r: Rules, dir: Seq<u8>, source: Seq<Raw>, overlay: Seq<Raw>, e: Raw)
    ensures
        ({
            let was = source_list(r, dir, source).children;
            let now = source_list(r, dir, source.push(e)).children;
            &&& was.is_prefix_of(now)
            &&& now.len() == was.len() + (if wanted(r, dir, e) {
                1int
            } else {
                0
            })
        }),
        ({
            let was = list_of(r, dir, source, overlay).children;
            let now = list_of(r, dir, source, overlay.push(e)).children;
            &&& was.is_prefix_of(now)
            &&& now.len() == was.len() + (if wanted_over(r, dir, source, e) {
                1int
            } else {
                0
            })
        }),
        source_list(r, dir, source).children.is_prefix_of(
            list_of(r, dir, source, overlay).children,
        ),
{
    assert(source.push(e).drop_last() =~= source);
    assert(overlay.push(e).drop_last() =~= overlay);
    lemma_source_list(r, dir, source);
    lemma_overlay_list(r, source_list(r, dir, source), overlay);
    lemma_overlay_step(r, dir, source, overlay.push(e));
}

/// A listing is given out in full: first the directory, then the one above it, then each
/// entry that is shown, with its name, its kind and the number that its path then has.
pub proof fn law_listing_given_out(t: Inodes, ino: u64, l: DirList)
    requires
        l.children.len() + 2 < i64::MAX,
        children_below(l),
    ensures
        ({
            let run = listed_from(t, ino, l, 0);
            let end = numbers_after_all(t, ino, l, 0);
            &&& run.len() == l.children.len() + 2
            &&& run[0].ino == ino && run[0].name == "."@ && run[0].kind == FileKind::Directory
            &&& run[1].name == ".."@ && run[1].kind == FileKind::Directory
            &&& l.dir.len() == 0 ==> run[1].ino == 1
            &&& forall|up: Seq<u8>|
                l.dir.len() > 0 && parent(l.dir) == Some(up) && t.index.contains_key(
                    #[trigger] components(up),
                ) ==> run[1].ino == t.index[components(up)]
            &&& forall|k: int|
                0 <= k < l.children.len() ==> (#[trigger] run[k + 2]).name == l.children[k].name
                    && run[k + 2].kind == l.children[k].kind && end.index.contains_key(
                    components(l.children[k].path),
                ) && end.index[components(l.children[k].path)] == run[k + 2].ino
        }),
{
    let run = listed_from(t, ino, l, 0);
    let end = numbers_after_all(t, ino, l, 0);
    lemma_above_stays(t, ino, l);
    lemma_listed_from(t, ino, l, 0);
    assert(Some(run[0]) == listed(end, ino, l, 0));
    assert(Some(run[1]) == listed(end, ino, l, 1));
    assert forall|k: int| 0 <= k < l.children.len() implies (#[trigger] run[k + 2]).name
        == l.children[k].name && run[k + 2].kind == l.children[k].kind && end.index.contains_key(
        components(l.children[k].path),
    ) && end.index[components(l.children[k].path)] == run[k + 2].ino by {
        assert(Some(run[k + 2]) == listed(end, ino, l, (0 + (k + 2)) as i64));
        assert(end.index.contains_key(components(l.children[k].path)));
    }
}

/// Listing a directory keeps the numbers consistent, so that each number that it gave out
/// stands for the entry; numbers that were given out before stay.
pub proof fn law_listing_numbers(t: Inodes, ino: u64, l: DirList, offset: i64)
    requires
        t.consistent(),
        0 <= offset <= l.children.len() + 2 < i64::MAX,
        t.next + l.children.len() + 2 - offset < u64::MAX,
    ensures
        numbers_after_all(t, ino, l, offset).consistent(),
        forall|k: Seq<Seq<u8>>| #[trigger]
            t.index.contains_key(k) ==> numbers_after_all(t, ino, l, offset).index.contains_key(k)
                && numbers_after_all(t, ino, l, offset).index[k] == t.index[k],
    decreases l.children.len() + 2 - offset,
{
    if offset < l.children.len() + 2 {
        let now = numbers_after(t, l, offset);
        if offset >= 2 {
            law_numbers_consistent(t, l.children[offset - 2].path);
        }
        law_listing_numbers(now, ino, l, (offset + 1) as i64);
        let end = numbers_after_all(t, ino, l, offset);
        assert forall|k: Seq<Seq<u8>>| #[trigger]
            t.index.contains_key(k) implies end.index.contains_key(k) && end.index[k]
            == t.index[k] by {
            assert(now.index.contains_key(k));
        }
    }
}

/// A listing ends behind its last entry, and starts at its first one from any offset below
/// zero.
pub proof fn law_listing_ends(t: Inodes, ino: u64, l: DirList, offset: i64)
    ensures
        offset >= l.children.len() + 2 ==> listed(t, ino, l, offset) is None && numbers_after(
            t,
            l,
            offset,
        ) == t,
        offset < 0 ==> listed(t, ino, l, offset) == listed(t, ino, l, 0),
        0 <= offset < l.children.len() + 2 && offset < i64::MAX ==> (listed(
            t,
            ino,
            l,
            offset,
        ) matches Some(e) && e.offset == offset + 1),
{
}

} // verus!
