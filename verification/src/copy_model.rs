//! What a copy leaves behind, shown on a model of the disk.
//!
//! The model is the tree of files and directories that the source shows
//! once its symbolic links are followed. A caller that answers the walk's
//! requests truthfully from such a tree, and does to the destination what
//! the requests say, ends up with a destination that is that tree: nothing
//! missing, nothing left over from before, every file with the bytes of its
//! source, and a file or a directory where the source has a link to one.
//!
//! This is shown of sources in which every link leads to a file or a
//! directory, and none leads back to a directory above it.

use crate::copy::{
    consumed, initial, is_inside, proceed, react, Awaiting, EventView, FrameView, RequestView,
    TurnView, WalkView,
};
use crate::error::ErrorView;
use crate::listing::EntryKind;
use crate::tree::{
    child, honest, is_tree, is_under, kind_of, lemma_entry_is_there, lemma_listed_is_found,
    lemma_parents_exist, lists, shallow, Item, World,
};
use vstd::prelude::*;

verus! {

/// The truthful answer to `request`.
pub open spec fn answer(w: World, request: RequestView) -> EventView {
    match request {
        RequestView::Probe { rel } => EventView::Probed {
            exists: w.source.contains_key(rel),
            is_dir: w.source.contains_key(rel) && w.source[rel] is Dir,
            canonical: (w.canonical)(rel),
        },
        RequestView::Open { rel } => EventView::Listed { entries: (w.listing)(rel) },
        RequestView::CopyFile { rel } => EventView::Copied,
        RequestView::Resolve { rel } => EventView::Resolved {
            kind: if w.source.contains_key(rel) {
                kind_of(w.source[rel])
            } else {
                EntryKind::Other
            },
        },
    }
}

/// `dest` without `t` and what lies below it.
pub open spec fn cleared(dest: Map<Seq<Seq<char>>, Item>, t: Seq<Seq<char>>) -> Map<
    Seq<Seq<char>>,
    Item,
> {
    Map::new(|p: Seq<Seq<char>>| dest.contains_key(p) && !is_under(p, t), |p: Seq<Seq<char>>| dest[p])
}

/// The destination after `request` was carried out on it.
pub open spec fn effect(w: World, dest: Map<Seq<Seq<char>>, Item>, request: RequestView) -> Map<
    Seq<Seq<char>>,
    Item,
> {
    match request {
        RequestView::Open { rel } => cleared(dest, rel).insert(rel, Item::Dir),
        RequestView::CopyFile { rel } => dest.insert(rel, w.source[rel]),
        _ => dest,
    }
}

/// `dest` with `t` and what lies below it as in `source`.
pub open spec fn overlay(
    source: Map<Seq<Seq<char>>, Item>,
    dest: Map<Seq<Seq<char>>, Item>,
    t: Seq<Seq<char>>,
) -> Map<Seq<Seq<char>>, Item> {
    Map::new(
        |p: Seq<Seq<char>>|
            if is_under(p, t) {
                source.contains_key(p)
            } else {
                dest.contains_key(p)
            },
        |p: Seq<Seq<char>>|
            if is_under(p, t) {
                source[p]
            } else {
                dest[p]
            },
    )
}

/// How a copy ends, and with what destination, when the walk `walk` has
/// asked for `request`, the destination is `dest`, and every request is
/// answered truthfully and carried out. `None` where the copy is not over
/// after `fuel` requests.
pub open spec fn run(
    w: World,
    walk: WalkView,
    request: RequestView,
    dest: Map<Seq<Seq<char>>, Item>,
    fuel: nat,
) -> Option<(Result<(), ErrorView>, Map<Seq<Seq<char>>, Item>)>
    decreases fuel,
{
    if fuel == 0 {
        None
    } else {
        match react(walk, answer(w, request)) {
            TurnView::Finished { outcome } => Some((outcome, effect(w, dest, request))),
            TurnView::Ask { walk: next, request: asked } => run(
                w,
                next,
                asked,
                effect(w, dest, request),
                (fuel - 1) as nat,
            ),
        }
    }
}

/// How a copy ends when the walk is done with a place and goes on from
/// the directories `frames`.
pub open spec fn resume(
    w: World,
    shown: Seq<char>,
    frames: Seq<FrameView>,
    dest: Map<Seq<Seq<char>>, Item>,
    fuel: nat,
) -> Option<(Result<(), ErrorView>, Map<Seq<Seq<char>>, Item>)> {
    match proceed(shown, frames) {
        TurnView::Finished { outcome } => Some((outcome, dest)),
        TurnView::Ask { walk, request } => run(w, walk, request, dest, fuel),
    }
}

/// The destination after entry `k` of the directory `t` was copied: with
/// the tree below the entry where a directory is found at its place, with
/// the file where a file is found, and as it was where neither is.
pub open spec fn with_entry(w: World, dest: Map<Seq<Seq<char>>, Item>, t: Seq<Seq<char>>, k: int) -> Map<
    Seq<Seq<char>>,
    Item,
> {
    if !w.source.contains_key(child(w, t, k)) {
        dest
    } else if w.source[child(w, t, k)] is Dir {
        overlay(w.source, dest, child(w, t, k))
    } else {
        dest.insert(child(w, t, k), w.source[child(w, t, k)])
    }
}

/// The destination after the entries of the directory `t` from entry `k`
/// on were copied, one after the other.
pub open spec fn filled(w: World, dest: Map<Seq<Seq<char>>, Item>, t: Seq<Seq<char>>, k: int) -> Map<
    Seq<Seq<char>>,
    Item,
>
    decreases (w.listing)(t).len() - k,
{
    if k < 0 || k >= (w.listing)(t).len() {
        dest
    } else {
        filled(w, with_entry(w, dest, t, k), t, k + 1)
    }
}

/// Whether `frames` are directories above `t`, each known by its
/// canonical path.
pub open spec fn above(w: World, frames: Seq<FrameView>, t: Seq<Seq<char>>) -> bool {
    forall|i: int|
        0 <= i < frames.len() ==> (#[trigger] frames[i]).canonical == (w.canonical)(frames[i].rel)
            && frames[i].rel.len() < t.len() && frames[i].rel == t.take(frames[i].rel.len() as int)
}

/// The walk that has asked for the directory `t` to be probed.
pub open spec fn probing(shown: Seq<char>, frames: Seq<FrameView>, t: Seq<Seq<char>>) -> WalkView {
    WalkView { source: shown, frames, target: t, canonical: Seq::empty(), awaiting: Awaiting::Probed }
}

/// The directory `t` as the walk holds it once entries up to `k` have been
/// taken up.
pub open spec fn frame_at(w: World, t: Seq<Seq<char>>, k: int) -> FrameView {
    FrameView { rel: t, canonical: (w.canonical)(t), pending: (w.listing)(t).skip(k) }
}

proof fn lemma_directory(
    w: World,
    shown: Seq<char>,
    frames: Seq<FrameView>,
    t: Seq<Seq<char>>,
    dest: Map<Seq<Seq<char>>, Item>,
    fuel: nat,
) -> (left: nat)
    requires
        honest(w),
        w.source.contains_key(t),
        w.source[t] is Dir,
        above(w, frames, t),
    ensures
        run(w, probing(shown, frames, t), RequestView::Probe { rel: t }, dest, fuel) is None || (left
            < fuel && run(w, probing(shown, frames, t), RequestView::Probe { rel: t }, dest, fuel)
            == resume(w, shown, frames, overlay(w.source, dest, t), left)),
    decreases fuel, 0nat,
{
    let walk = probing(shown, frames, t);
    let canonical = (w.canonical)(t);
    let opening = WalkView {
        source: shown,
        frames,
        target: t,
        canonical,
        awaiting: Awaiting::Listed,
    };
    assert(!is_inside(frames, canonical)) by {
        if is_inside(frames, canonical) {
            let i = choose|i: int| 0 <= i < frames.len() && (#[trigger] frames[i]).canonical == canonical;
            assert((w.canonical)(t.take(frames[i].rel.len() as int)) != (w.canonical)(t));
        }
    }
    assert(react(walk, answer(w, RequestView::Probe { rel: t })) == (TurnView::Ask {
        walk: opening,
        request: RequestView::Open { rel: t },
    }));
    let top = frame_at(w, t, 0);
    assert((w.listing)(t).skip(0) =~= (w.listing)(t));
    assert(react(opening, answer(w, RequestView::Open { rel: t })) == proceed(
        shown,
        frames.push(top),
    ));
    let ready = cleared(dest, t).insert(t, Item::Dir);
    if fuel < 2 {
        if fuel == 1 {
            assert(run(w, opening, RequestView::Open { rel: t }, dest, 0) is None);
        }
        0
    } else {
        let rest = (fuel - 2) as nat;
        assert(run(w, walk, RequestView::Probe { rel: t }, dest, fuel) == run(
            w,
            opening,
            RequestView::Open { rel: t },
            dest,
            (fuel - 1) as nat,
        ));
        assert(run(w, opening, RequestView::Open { rel: t }, dest, (fuel - 1) as nat) == resume(
            w,
            shown,
            frames.push(top),
            ready,
            rest,
        ));
        let left = lemma_entries(w, shown, frames, t, 0, ready, rest);
        lemma_filled_is_overlay(w, dest, t);
        left
    }
}

proof fn lemma_no_entry_left(w: World, shown: Seq<char>, frames: Seq<FrameView>, t: Seq<Seq<char>>)
    ensures
        proceed(shown, frames.push(frame_at(w, t, (w.listing)(t).len() as int))) == proceed(
            shown,
            frames,
        ),
{
    let top = frame_at(w, t, (w.listing)(t).len() as int);
    let stack = frames.push(top);
    assert(stack.drop_last() =~= frames);
    assert(stack.last() == top);
    assert(top.pending.len() == 0);
}

/// The walk that has asked for the file at `place` to be copied.
pub open spec fn copying(shown: Seq<char>, frames: Seq<FrameView>, place: Seq<Seq<char>>) -> WalkView {
    WalkView {
        source: shown,
        frames,
        target: place,
        canonical: Seq::empty(),
        awaiting: Awaiting::Copied,
    }
}

/// The walk that has asked for the link at `place` to be resolved.
pub open spec fn resolving(shown: Seq<char>, frames: Seq<FrameView>, place: Seq<Seq<char>>) -> WalkView {
    WalkView {
        source: shown,
        frames,
        target: place,
        canonical: Seq::empty(),
        awaiting: Awaiting::Resolved,
    }
}

proof fn lemma_link_resolved(
    w: World,
    shown: Seq<char>,
    frames: Seq<FrameView>,
    place: Seq<Seq<char>>,
    dest: Map<Seq<Seq<char>>, Item>,
    fuel: nat,
)
    requires
        fuel > 0,
        w.source.contains_key(place),
    ensures
        run(w, resolving(shown, frames, place), RequestView::Resolve { rel: place }, dest, fuel)
            == if w.source[place] is Dir {
            run(
                w,
                probing(shown, frames, place),
                RequestView::Probe { rel: place },
                dest,
                (fuel - 1) as nat,
            )
        } else {
            run(
                w,
                copying(shown, frames, place),
                RequestView::CopyFile { rel: place },
                dest,
                (fuel - 1) as nat,
            )
        },
{
    let event = answer(w, RequestView::Resolve { rel: place });
    if w.source[place] is Dir {
        assert(react(resolving(shown, frames, place), event) == (TurnView::Ask {
            walk: probing(shown, frames, place),
            request: RequestView::Probe { rel: place },
        }));
    } else {
        assert(react(resolving(shown, frames, place), event) == (TurnView::Ask {
            walk: copying(shown, frames, place),
            request: RequestView::CopyFile { rel: place },
        }));
    }
}

proof fn lemma_next_entry(
    w: World,
    shown: Seq<char>,
    frames: Seq<FrameView>,
    t: Seq<Seq<char>>,
    k: int,
)
    requires
        0 <= k < (w.listing)(t).len(),
    ensures
        (w.listing)(t)[k].kind == EntryKind::Dir ==> proceed(
            shown,
            frames.push(frame_at(w, t, k)),
        ) == (TurnView::Ask {
            walk: probing(shown, frames.push(frame_at(w, t, k + 1)), child(w, t, k)),
            request: RequestView::Probe { rel: child(w, t, k) },
        }),
        (w.listing)(t)[k].kind == EntryKind::File ==> proceed(
            shown,
            frames.push(frame_at(w, t, k)),
        ) == (TurnView::Ask {
            walk: copying(shown, frames.push(frame_at(w, t, k + 1)), child(w, t, k)),
            request: RequestView::CopyFile { rel: child(w, t, k) },
        }),
        (w.listing)(t)[k].kind == EntryKind::Symlink ==> proceed(
            shown,
            frames.push(frame_at(w, t, k)),
        ) == (TurnView::Ask {
            walk: resolving(shown, frames.push(frame_at(w, t, k + 1)), child(w, t, k)),
            request: RequestView::Resolve { rel: child(w, t, k) },
        }),
        (w.listing)(t)[k].kind == EntryKind::Other ==> proceed(
            shown,
            frames.push(frame_at(w, t, k)),
        ) == proceed(shown, frames.push(frame_at(w, t, k + 1))),
{
    let entries = (w.listing)(t);
    let top = frame_at(w, t, k);
    let stack = frames.push(top);
    assert(stack.drop_last() =~= frames);
    assert(stack.last() == top);
    assert(top.pending[0] == entries[k]);
    assert(top.pending.drop_first() =~= entries.skip(k + 1));
    assert(consumed(stack) =~= frames.push(frame_at(w, t, k + 1)));
}

proof fn lemma_above_child(w: World, frames: Seq<FrameView>, t: Seq<Seq<char>>, k: int)
    requires
        above(w, frames, t),
    ensures
        above(w, frames.push(frame_at(w, t, k + 1)), child(w, t, k)),
{
    let after = frames.push(frame_at(w, t, k + 1));
    let place = child(w, t, k);
    assert forall|i: int| 0 <= i < after.len() implies (#[trigger] after[i]).canonical == (
    w.canonical)(after[i].rel) && after[i].rel.len() < place.len() && after[i].rel == place.take(
        after[i].rel.len() as int,
    ) by {
        if i < frames.len() {
            assert(after[i] == frames[i]);
            assert(place.take(frames[i].rel.len() as int) =~= t.take(frames[i].rel.len() as int));
        } else {
            assert(place.take(t.len() as int) =~= t);
        }
    }
}

proof fn lemma_file_copied(
    w: World,
    shown: Seq<char>,
    frames: Seq<FrameView>,
    place: Seq<Seq<char>>,
    dest: Map<Seq<Seq<char>>, Item>,
    fuel: nat,
)
    requires
        fuel > 0,
    ensures
        run(w, copying(shown, frames, place), RequestView::CopyFile { rel: place }, dest, fuel)
            == resume(w, shown, frames, dest.insert(place, w.source[place]), (fuel - 1) as nat),
{
    assert(react(copying(shown, frames, place), answer(w, RequestView::CopyFile { rel: place }))
        == proceed(shown, frames));
}

proof fn lemma_entries(
    w: World,
    shown: Seq<char>,
    frames: Seq<FrameView>,
    t: Seq<Seq<char>>,
    k: int,
    dest: Map<Seq<Seq<char>>, Item>,
    fuel: nat,
) -> (left: nat)
    requires
        honest(w),
        w.source.contains_key(t),
        w.source[t] is Dir,
        above(w, frames, t),
        0 <= k <= (w.listing)(t).len(),
    ensures
        resume(w, shown, frames.push(frame_at(w, t, k)), dest, fuel) is None || (left <= fuel
            && resume(w, shown, frames.push(frame_at(w, t, k)), dest, fuel) == resume(
            w,
            shown,
            frames,
            filled(w, dest, t, k),
            left,
        )),
    decreases fuel, 1nat, (w.listing)(t).len() - k,
{
    if k == (w.listing)(t).len() {
        lemma_no_entry_left(w, shown, frames, t);
        fuel
    } else {
        let after = frames.push(frame_at(w, t, k + 1));
        let place = child(w, t, k);
        let kind = (w.listing)(t)[k].kind;
        lemma_entry_is_there(w, t, k);
        lemma_next_entry(w, shown, frames, t, k);
        lemma_above_child(w, frames, t, k);
        if kind == EntryKind::Other {
            lemma_entries(w, shown, frames, t, k + 1, dest, fuel)
        } else if kind == EntryKind::Symlink && fuel == 0 {
            0
        } else {
            let rest = if kind == EntryKind::Symlink {
                lemma_link_resolved(w, shown, after, place, dest, fuel);
                (fuel - 1) as nat
            } else {
                fuel
            };
            if w.source[place] is Dir {
                let mid = lemma_directory(w, shown, after, place, dest, rest);
                if run(
                    w,
                    probing(shown, after, place),
                    RequestView::Probe { rel: place },
                    dest,
                    rest,
                ) is None {
                    0
                } else {
                    lemma_entries(w, shown, frames, t, k + 1, overlay(w.source, dest, place), mid)
                }
            } else if rest == 0 {
                0
            } else {
                lemma_file_copied(w, shown, after, place, dest, rest);
                lemma_entries(
                    w,
                    shown,
                    frames,
                    t,
                    k + 1,
                    dest.insert(place, w.source[place]),
                    (rest - 1) as nat,
                )
            }
        }
    }
}

/// The first entry of the directory `t` at or after entry `k` whose place
/// is `p` or lies above it; the number of entries where there is none.
pub open spec fn cover(w: World, t: Seq<Seq<char>>, k: int, p: Seq<Seq<char>>) -> int
    decreases (w.listing)(t).len() - k,
{
    if k < 0 || k >= (w.listing)(t).len() {
        (w.listing)(t).len() as int
    } else if is_under(p, child(w, t, k)) {
        k
    } else {
        cover(w, t, k + 1, p)
    }
}

proof fn lemma_cover_bounds(w: World, t: Seq<Seq<char>>, k: int, p: Seq<Seq<char>>)
    requires
        0 <= k <= (w.listing)(t).len(),
    ensures
        k <= cover(w, t, k, p) <= (w.listing)(t).len(),
        cover(w, t, k, p) < (w.listing)(t).len() ==> is_under(p, child(w, t, cover(w, t, k, p))),
        !is_under(p, t) || p.len() == t.len() ==> cover(w, t, k, p) == (w.listing)(t).len(),
    decreases (w.listing)(t).len() - k,
{
    if k < (w.listing)(t).len() {
        let place = child(w, t, k);
        if is_under(p, place) {
            assert(p.take(t.len() as int) =~= place.take(t.len() as int));
            assert(place.take(t.len() as int) =~= t);
        } else {
            lemma_cover_bounds(w, t, k + 1, p);
        }
    }
}

proof fn lemma_cover_finds(w: World, t: Seq<Seq<char>>, k: int, i: int, p: Seq<Seq<char>>)
    requires
        0 <= k <= i < (w.listing)(t).len(),
        is_under(p, child(w, t, i)),
    ensures
        cover(w, t, k, p) <= i,
    decreases i - k,
{
    if k < i && !is_under(p, child(w, t, k)) {
        lemma_cover_finds(w, t, k + 1, i, p);
    }
}

proof fn lemma_cover_once(w: World, t: Seq<Seq<char>>, k: int, m: int, p: Seq<Seq<char>>)
    requires
        lists(w.source, t, (w.listing)(t)),
        0 <= k < m <= (w.listing)(t).len(),
        is_under(p, child(w, t, k)),
    ensures
        cover(w, t, m, p) == (w.listing)(t).len(),
    decreases (w.listing)(t).len() - m,
{
    if m < (w.listing)(t).len() {
        let entries = (w.listing)(t);
        if is_under(p, child(w, t, m)) {
            let n = t.len() as int;
            assert(p.take(n + 1)[n] == child(w, t, k)[n]);
            assert(p.take(n + 1)[n] == child(w, t, m)[n]);
            assert(entries[k].name == entries[m].name);
            reveal(lists);
            assert(false);
        }
        lemma_cover_once(w, t, k, m + 1, p);
    }
}

/// Whether the destination `after` holds at `p` what it should once the
/// entries of `t` from entry `k` on were copied into `dest`.
pub open spec fn settled_at(
    w: World,
    dest: Map<Seq<Seq<char>>, Item>,
    after: Map<Seq<Seq<char>>, Item>,
    t: Seq<Seq<char>>,
    k: int,
    p: Seq<Seq<char>>,
) -> bool {
    let entries = (w.listing)(t);
    let j = cover(w, t, k, p);
    if j < entries.len() && w.source.contains_key(child(w, t, j)) && w.source[child(w, t, j)] is Dir {
        after.contains_key(p) == w.source.contains_key(p) && (after.contains_key(p) ==> after[p]
            == w.source[p])
    } else if j < entries.len() && w.source.contains_key(child(w, t, j)) && p == child(w, t, j) {
        after.contains_key(p) && after[p] == w.source[p]
    } else {
        after.contains_key(p) == dest.contains_key(p) && (after.contains_key(p) ==> after[p]
            == dest[p])
    }
}

proof fn lemma_filled_at(
    w: World,
    dest: Map<Seq<Seq<char>>, Item>,
    t: Seq<Seq<char>>,
    k: int,
    p: Seq<Seq<char>>,
)
    requires
        lists(w.source, t, (w.listing)(t)),
        0 <= k <= (w.listing)(t).len(),
    ensures
        settled_at(w, dest, filled(w, dest, t, k), t, k, p),
    decreases (w.listing)(t).len() - k,
{
    let entries = (w.listing)(t);
    if k < entries.len() {
        let place = child(w, t, k);
        let next = with_entry(w, dest, t, k);
        let after = filled(w, dest, t, k);
        assert(after == filled(w, next, t, k + 1));
        lemma_filled_at(w, next, t, k + 1, p);
        assert(settled_at(w, next, after, t, k + 1, p));
        lemma_cover_bounds(w, t, k + 1, p);
        if is_under(p, place) {
            lemma_cover_once(w, t, k, k + 1, p);
            assert(cover(w, t, k, p) == k);
            assert(cover(w, t, k + 1, p) == entries.len());
            assert(after.contains_key(p) == next.contains_key(p));
            if !w.source.contains_key(place) {
                assert(next == dest);
            } else if w.source[place] is Dir {
                assert(next.contains_key(p) == w.source.contains_key(p));
            } else if p == place {
                assert(next.contains_key(p));
            } else {
                assert(next.contains_key(p) == dest.contains_key(p));
            }
        } else {
            assert(cover(w, t, k, p) == cover(w, t, k + 1, p));
            assert(p != place) by {
                assert(place.take(place.len() as int) =~= place);
            }
            assert(next.contains_key(p) == dest.contains_key(p));
            assert(next.contains_key(p) ==> next[p] == dest[p]);
        }
    }
}

proof fn lemma_overlay_at(
    w: World,
    dest: Map<Seq<Seq<char>>, Item>,
    t: Seq<Seq<char>>,
    p: Seq<Seq<char>>,
)
    requires
        is_tree(w.source),
        lists(w.source, t, (w.listing)(t)),
        w.source.contains_key(t),
        w.source[t] is Dir,
    ensures
        ({
            let after = filled(w, cleared(dest, t).insert(t, Item::Dir), t, 0);
            let wanted = overlay(w.source, dest, t);
            after.contains_key(p) == wanted.contains_key(p) && (after.contains_key(p) ==> after[p]
                == wanted[p])
        }),
{
    let entries = (w.listing)(t);
    let ready = cleared(dest, t).insert(t, Item::Dir);
    let after = filled(w, ready, t, 0);
    let n = t.len() as int;
    lemma_filled_at(w, ready, t, 0, p);
    lemma_cover_bounds(w, t, 0, p);
    let j = cover(w, t, 0, p);
    if !is_under(p, t) {
        assert(p != t) by {
            assert(t.take(n) =~= t);
        }
    } else if p.len() == t.len() {
        assert(p =~= p.take(n));
    } else if j < entries.len() {
        let place = child(w, t, j);
        if !(w.source.contains_key(place) && w.source[place] is Dir) && p != place {
            assert(!ready.contains_key(p));
            if w.source.contains_key(p) {
                lemma_parents_exist(w.source, p, n + 1);
                assert(p.take(n + 1) =~= place) by {
                    assert(p.take(place.len() as int) == place);
                }
                if p.len() == n + 1 {
                    assert(p.take(n + 1) =~= p);
                }
            }
        } else if !w.source.contains_key(place) {
            assert(p == place);
            assert(!ready.contains_key(p));
        }
    } else {
        assert(!ready.contains_key(p));
        if w.source.contains_key(p) {
            lemma_parents_exist(w.source, p, n + 1);
            let name = p[n];
            assert(p.take(n + 1) =~= t.push(name)) by {
                assert(p.take(n + 1).take(n) =~= p.take(n));
            }
            let i = lemma_listed_is_found(w, t, name);
            assert(is_under(p, child(w, t, i))) by {
                assert(p.take(child(w, t, i).len() as int) =~= child(w, t, i));
            }
            lemma_cover_finds(w, t, 0, i, p);
        }
    }
}

proof fn lemma_filled_is_overlay(w: World, dest: Map<Seq<Seq<char>>, Item>, t: Seq<Seq<char>>)
    requires
        honest(w),
        w.source.contains_key(t),
        w.source[t] is Dir,
    ensures
        filled(w, cleared(dest, t).insert(t, Item::Dir), t, 0) == overlay(w.source, dest, t),
{
    let after = filled(w, cleared(dest, t).insert(t, Item::Dir), t, 0);
    let wanted = overlay(w.source, dest, t);
    assert(lists(w.source, t, (w.listing)(t)));
    assert forall|p: Seq<Seq<char>>|
        #![trigger after.dom().contains(p)]
        #![trigger wanted.dom().contains(p)]
        after.dom().contains(p) == wanted.dom().contains(p) && (after.dom().contains(p)
            ==> after[p] == wanted[p]) by {
        lemma_overlay_at(w, dest, t, p);
    }
    assert(after.dom() =~= wanted.dom());
    assert(after =~= wanted);
}

/// A copy, every request answered truthfully and carried out, ends well
/// if it ends, and leaves a destination that is the source tree as it is
/// with its links followed, whatever the destination held before. The
/// destination holds no link: it is a tree of files and directories.
pub proof fn lemma_copy_reproduces_source(
    w: World,
    shown: Seq<char>,
    dest: Map<Seq<Seq<char>>, Item>,
    fuel: nat,
)
    requires
        honest(w),
    ensures
        run(w, initial(shown), RequestView::Probe { rel: Seq::empty() }, dest, fuel) matches Some(
            end,
        ) ==> end.0 == Ok::<(), ErrorView>(()) && end.1 == w.source,
{
    let root = Seq::<Seq<char>>::empty();
    let frames = Seq::<FrameView>::empty();
    assert(initial(shown) == probing(shown, frames, root));
    let left = lemma_directory(w, shown, frames, root, dest, fuel);
    assert(overlay(w.source, dest, root) =~= w.source) by {
        assert forall|p: Seq<Seq<char>>| is_under(p, root) by {
            assert(p.take(0) =~= root);
        }
    }
}

/// How many requests the copy of the directory `t` takes: two for the
/// directory itself, and what its entries take.
pub open spec fn cost_of_directory(w: World, t: Seq<Seq<char>>, depth: nat) -> nat
    decreases depth - t.len(), 1nat, 0nat,
{
    2 + cost_of_entries(w, t, 0, depth)
}

/// How many requests the entries of the directory `t` from entry `k` on
/// take: one for a file, for a directory what its copy takes, one more for
/// a link, and none for what is neither.
pub open spec fn cost_of_entries(w: World, t: Seq<Seq<char>>, k: int, depth: nat) -> nat
    decreases depth - t.len(), 0nat, (w.listing)(t).len() - k,
{
    if k < 0 || k >= (w.listing)(t).len() {
        0
    } else {
        let copy = if w.source[child(w, t, k)] is Dir && t.len() < depth {
            cost_of_directory(w, child(w, t, k), depth)
        } else {
            1
        };
        let link: nat = if (w.listing)(t)[k].kind == EntryKind::Symlink {
            1
        } else {
            0
        };
        let first = if w.source.contains_key(child(w, t, k)) {
            link + copy
        } else {
            0
        };
        first + cost_of_entries(w, t, k + 1, depth)
    }
}

proof fn lemma_directory_ends(
    w: World,
    shown: Seq<char>,
    frames: Seq<FrameView>,
    t: Seq<Seq<char>>,
    dest: Map<Seq<Seq<char>>, Item>,
    depth: nat,
    fuel: nat,
)
    requires
        honest(w),
        shallow(w, depth),
        w.source.contains_key(t),
        w.source[t] is Dir,
        above(w, frames, t),
        fuel >= cost_of_directory(w, t, depth),
    ensures
        run(w, probing(shown, frames, t), RequestView::Probe { rel: t }, dest, fuel) == resume(
            w,
            shown,
            frames,
            overlay(w.source, dest, t),
            (fuel - cost_of_directory(w, t, depth)) as nat,
        ),
    decreases depth - t.len(), 1nat, 0nat,
{
    let walk = probing(shown, frames, t);
    let canonical = (w.canonical)(t);
    let opening = WalkView {
        source: shown,
        frames,
        target: t,
        canonical,
        awaiting: Awaiting::Listed,
    };
    assert(!is_inside(frames, canonical)) by {
        if is_inside(frames, canonical) {
            let i = choose|i: int| 0 <= i < frames.len() && (#[trigger] frames[i]).canonical == canonical;
            assert((w.canonical)(t.take(frames[i].rel.len() as int)) != (w.canonical)(t));
        }
    }
    assert(react(walk, answer(w, RequestView::Probe { rel: t })) == (TurnView::Ask {
        walk: opening,
        request: RequestView::Open { rel: t },
    }));
    let top = frame_at(w, t, 0);
    assert((w.listing)(t).skip(0) =~= (w.listing)(t));
    assert(react(opening, answer(w, RequestView::Open { rel: t })) == proceed(
        shown,
        frames.push(top),
    ));
    let ready = cleared(dest, t).insert(t, Item::Dir);
    let rest = (fuel - 2) as nat;
    assert(run(w, walk, RequestView::Probe { rel: t }, dest, fuel) == run(
        w,
        opening,
        RequestView::Open { rel: t },
        dest,
        (fuel - 1) as nat,
    ));
    assert(run(w, opening, RequestView::Open { rel: t }, dest, (fuel - 1) as nat) == resume(
        w,
        shown,
        frames.push(top),
        ready,
        rest,
    ));
    lemma_entries_end(w, shown, frames, t, 0, ready, depth, rest);
    lemma_filled_is_overlay(w, dest, t);
}

proof fn lemma_entries_end(
    w: World,
    shown: Seq<char>,
    frames: Seq<FrameView>,
    t: Seq<Seq<char>>,
    k: int,
    dest: Map<Seq<Seq<char>>, Item>,
    depth: nat,
    fuel: nat,
)
    requires
        honest(w),
        shallow(w, depth),
        w.source.contains_key(t),
        w.source[t] is Dir,
        above(w, frames, t),
        0 <= k <= (w.listing)(t).len(),
        fuel >= cost_of_entries(w, t, k, depth),
    ensures
        resume(w, shown, frames.push(frame_at(w, t, k)), dest, fuel) == resume(
            w,
            shown,
            frames,
            filled(w, dest, t, k),
            (fuel - cost_of_entries(w, t, k, depth)) as nat,
        ),
    decreases depth - t.len(), 0nat, (w.listing)(t).len() - k,
{
    if k == (w.listing)(t).len() {
        lemma_no_entry_left(w, shown, frames, t);
    } else {
        let after = frames.push(frame_at(w, t, k + 1));
        let place = child(w, t, k);
        let kind = (w.listing)(t)[k].kind;
        lemma_entry_is_there(w, t, k);
        lemma_next_entry(w, shown, frames, t, k);
        lemma_above_child(w, frames, t, k);
        if kind == EntryKind::Other {
            lemma_entries_end(w, shown, frames, t, k + 1, dest, depth, fuel);
        } else {
            assert(place.len() <= depth);
            let rest = if kind == EntryKind::Symlink {
                lemma_link_resolved(w, shown, after, place, dest, fuel);
                (fuel - 1) as nat
            } else {
                fuel
            };
            if w.source[place] is Dir {
                let used = cost_of_directory(w, place, depth);
                lemma_directory_ends(w, shown, after, place, dest, depth, rest);
                lemma_entries_end(
                    w,
                    shown,
                    frames,
                    t,
                    k + 1,
                    overlay(w.source, dest, place),
                    depth,
                    (rest - used) as nat,
                );
            } else {
                lemma_file_copied(w, shown, after, place, dest, rest);
                lemma_entries_end(
                    w,
                    shown,
                    frames,
                    t,
                    k + 1,
                    dest.insert(place, w.source[place]),
                    depth,
                    (rest - 1) as nat,
                );
            }
        }
    }
}

/// A copy of a tree of bounded depth, every request answered truthfully
/// and carried out, comes to an end: after two requests for each directory
/// of the tree, one for each file and one more for each link, the walk is
/// finished, has ended well, and the destination is the source tree as it
/// is with its links followed.
pub proof fn lemma_copy_ends(
    w: World,
    shown: Seq<char>,
    dest: Map<Seq<Seq<char>>, Item>,
    depth: nat,
)
    requires
        honest(w),
        shallow(w, depth),
    ensures
        run(
            w,
            initial(shown),
            RequestView::Probe { rel: Seq::empty() },
            dest,
            cost_of_directory(w, Seq::empty(), depth),
        ) == Some((Ok::<(), ErrorView>(()), w.source)),
{
    let root = Seq::<Seq<char>>::empty();
    let frames = Seq::<FrameView>::empty();
    assert(initial(shown) == probing(shown, frames, root));
    lemma_directory_ends(w, shown, frames, root, dest, depth, cost_of_directory(w, root, depth));
    assert(overlay(w.source, dest, root) =~= w.source) by {
        assert forall|p: Seq<Seq<char>>| is_under(p, root) by {
            assert(p.take(0) =~= root);
        }
    }
}

/// A tree that was copied, and whose copy was copied in turn, comes back as
/// it was, its links followed: where a skill goes from an agent into the
/// store and from the store to an agent, its marker file and everything
/// beside it arrive with the content they set out with, and what was a
/// link to a file or a directory arrives as that file or directory.
pub proof fn lemma_copy_of_copy_is_the_same(
    first: World,
    second: World,
    shown: Seq<char>,
    between: Map<Seq<Seq<char>>, Item>,
    dest: Map<Seq<Seq<char>>, Item>,
    fuel: nat,
    stored: Map<Seq<Seq<char>>, Item>,
    back: Map<Seq<Seq<char>>, Item>,
)
    requires
        honest(first),
        honest(second),
        run(first, initial(shown), RequestView::Probe { rel: Seq::empty() }, between, fuel) == Some(
            (Ok::<(), ErrorView>(()), stored),
        ),
        second.source == stored,
        run(second, initial(shown), RequestView::Probe { rel: Seq::empty() }, dest, fuel) == Some(
            (Ok::<(), ErrorView>(()), back),
        ),
    ensures
        back == first.source,
{
    lemma_copy_reproduces_source(first, shown, between, fuel);
    lemma_copy_reproduces_source(second, shown, dest, fuel);
}

} // verus!
