//! What a search finds, shown on a model of the disk.
//!
//! A caller that answers the scan truthfully is handed exactly the skill
//! roots that can be reached from the top without passing through a skill
//! root or a hidden directory. A symbolic link that leads to a directory is
//! a way down like any other; the search comes to an end where no link
//! leads back up, so that the tree is of bounded depth.

use crate::listing::{is_hidden, EntryView};
use crate::scan::{children, has_marker, move_on, scan_react, scan_start, ScanTurnView, ScanView};
use crate::tree::{
    child, is_tree, is_under, lemma_listed_is_found, lemma_parents_exist, lists, shallow, World,
};
use vstd::prelude::*;

verus! {

/// Whether the world is one that a disk can be, as far as a search is
/// concerned: the source is a tree, every directory is listed truthfully,
/// and an entry is said to lead to a directory exactly if a directory is
/// found at its place.
pub open spec fn plain(w: World) -> bool {
    &&& is_tree(w.source)
    &&& forall|t: Seq<Seq<char>>|
        #![trigger (w.listing)(t)]
        w.source.contains_key(t) && w.source[t] is Dir ==> lists(w.source, t, (w.listing)(t))
            && forall|i: int|
            0 <= i < (w.listing)(t).len() ==> (#[trigger] (w.listing)(t)[i]).is_dir == (
            w.source.contains_key(child(w, t, i)) && w.source[child(w, t, i)] is Dir)
}

/// Whether the search gets to the directory `p`: every directory above it
/// is without a marker file, and no name on the way to it is hidden.
pub open spec fn reachable(w: World, p: Seq<Seq<char>>) -> bool {
    &&& w.source.contains_key(p)
    &&& w.source[p] is Dir
    &&& forall|n: int|
        0 <= n < p.len() ==> !has_marker((w.listing)(#[trigger] p.take(n))) && !is_hidden(p[n])
}

/// Whether `p` is a skill root that the search gets to.
pub open spec fn is_found(w: World, p: Seq<Seq<char>>) -> bool {
    reachable(w, p) && has_marker((w.listing)(p))
}

/// The truthful answer to the question what the directory `at` holds.
pub open spec fn listing_at(w: World, at: Seq<Seq<char>>) -> Option<Seq<EntryView>> {
    if w.source.contains_key(at) && w.source[at] is Dir {
        Some((w.listing)(at))
    } else {
        None
    }
}

/// The skill roots that a search ends with when every listing it asks for
/// is given truthfully; `None` where the search is not over after `fuel`
/// listings.
pub open spec fn run_scan(w: World, scan: ScanView, fuel: nat) -> Option<Seq<Seq<Seq<char>>>>
    decreases fuel,
{
    if fuel == 0 {
        None
    } else {
        match scan_react(scan, listing_at(w, scan.current)) {
            ScanTurnView::Finished { roots } => Some(roots),
            ScanTurnView::Visit { scan: next } => run_scan(w, next, (fuel - 1) as nat),
        }
    }
}

/// Whether `p` is one of `places` or lies below one.
pub open spec fn waits_above(places: Seq<Seq<Seq<char>>>, p: Seq<Seq<char>>) -> bool {
    exists|i: int| 0 <= i < places.len() && is_under(p, #[trigger] places[i])
}

/// What holds of a search at every turn: the places it has yet to visit
/// can be reached, the roots it has found are skill roots that can be
/// reached, and every such root is found already or lies at or below a
/// place that is yet to be visited.
pub open spec fn on_track(w: World, scan: ScanView) -> bool {
    &&& reachable(w, scan.current)
    &&& forall|i: int| 0 <= i < scan.waiting.len() ==> reachable(w, #[trigger] scan.waiting[i])
    &&& forall|i: int| 0 <= i < scan.roots.len() ==> is_found(w, #[trigger] scan.roots[i])
    &&& forall|p: Seq<Seq<char>>|
        #![trigger is_found(w, p)]
        is_found(w, p) ==> scan.roots.contains(p) || is_under(p, scan.current) || waits_above(
            scan.waiting,
            p,
        )
}

/// Whether `roots` are the skill roots that the search gets to, each of
/// them and nothing else.
pub open spec fn complete(w: World, roots: Seq<Seq<Seq<char>>>) -> bool {
    forall|p: Seq<Seq<char>>| #![trigger is_found(w, p)] roots.contains(p) <==> is_found(w, p)
}

/// Whether `place` is where an entry of the directory `at` leads that the
/// search goes on to.
pub open spec fn leads_on(at: Seq<Seq<char>>, entries: Seq<EntryView>, place: Seq<Seq<char>>) -> bool {
    exists|i: int|
        0 <= i < entries.len() && (#[trigger] entries[i]).is_dir && !is_hidden(entries[i].name)
            && place == at.push(entries[i].name)
}

proof fn lemma_children_are(at: Seq<Seq<char>>, entries: Seq<EntryView>)
    ensures
        forall|j: int|
            0 <= j < children(at, entries).len() ==> leads_on(
                at,
                entries,
                #[trigger] children(at, entries)[j],
            ),
        forall|i: int|
            0 <= i < entries.len() && (#[trigger] entries[i]).is_dir && !is_hidden(entries[i].name)
                ==> children(at, entries).contains(at.push(entries[i].name)),
    decreases entries.len(),
{
    if entries.len() > 0 {
        let head = entries.drop_last();
        let last = entries.last();
        lemma_children_are(at, head);
        let all = children(at, entries);
        let before = children(at, head);
        assert forall|j: int| 0 <= j < all.len() implies leads_on(at, entries, #[trigger] all[j]) by {
            if j < before.len() {
                assert(all[j] == before[j]);
                assert(leads_on(at, head, before[j]));
                let i = choose|i: int|
                    0 <= i < head.len() && (#[trigger] head[i]).is_dir && !is_hidden(head[i].name)
                        && before[j] == at.push(head[i].name);
                assert(entries[i] == head[i]);
            } else {
                assert(entries[entries.len() - 1] == last);
            }
        }
        assert forall|i: int|
            0 <= i < entries.len() && (#[trigger] entries[i]).is_dir && !is_hidden(
                entries[i].name,
            ) implies all.contains(at.push(entries[i].name)) by {
            if i < head.len() {
                assert(head[i] == entries[i]);
                let j = choose|j: int|
                    0 <= j < before.len() && before[j] == at.push(head[i].name);
                assert(all[j] == before[j]);
            } else {
                assert(all[all.len() - 1] == at.push(last.name));
            }
        }
    }
}

proof fn lemma_root_ends_search(w: World, p: Seq<Seq<char>>, at: Seq<Seq<char>>)
    requires
        is_found(w, p),
        is_under(p, at),
        has_marker((w.listing)(at)),
    ensures
        p == at,
{
    if p.len() > at.len() {
        assert(!has_marker((w.listing)(p.take(at.len() as int))));
    } else {
        assert(p.take(at.len() as int) =~= p);
    }
}

proof fn lemma_child_is_reachable(w: World, at: Seq<Seq<char>>, i: int)
    requires
        plain(w),
        reachable(w, at),
        !has_marker((w.listing)(at)),
        0 <= i < (w.listing)(at).len(),
        (w.listing)(at)[i].is_dir,
        !is_hidden((w.listing)(at)[i].name),
    ensures
        reachable(w, at.push((w.listing)(at)[i].name)),
{
    let entries = (w.listing)(at);
    let place = at.push(entries[i].name);
    assert forall|n: int| 0 <= n < place.len() implies !has_marker(
        (w.listing)(#[trigger] place.take(n)),
    ) && !is_hidden(place[n]) by {
        if n < at.len() {
            assert(place.take(n) =~= at.take(n));
        } else {
            assert(place.take(n) =~= at);
        }
    }
}

proof fn lemma_root_is_below_a_child(w: World, at: Seq<Seq<char>>, p: Seq<Seq<char>>) -> (i: int)
    requires
        plain(w),
        reachable(w, at),
        !has_marker((w.listing)(at)),
        is_found(w, p),
        is_under(p, at),
    ensures
        0 <= i < (w.listing)(at).len(),
        (w.listing)(at)[i].is_dir,
        !is_hidden((w.listing)(at)[i].name),
        is_under(p, at.push((w.listing)(at)[i].name)),
{
    let n = at.len() as int;
    if p.len() == n {
        assert(p.take(n) =~= p);
    }
    let name = p[n];
    let q = p.take(n + 1);
    lemma_parents_exist(w.source, p, n + 1);
    assert(q =~= at.push(name)) by {
        assert(q.take(n) =~= p.take(n));
    }
    if p.len() == n + 1 {
        assert(q =~= p);
    }
    let i = lemma_listed_is_found(w, at, name);
    assert(!is_hidden(p[n]));
    i
}

proof fn lemma_scan_stays_on_track(w: World, scan: ScanView)
    requires
        plain(w),
        on_track(w, scan),
    ensures
        match scan_react(scan, listing_at(w, scan.current)) {
            ScanTurnView::Visit { scan: next } => on_track(w, next),
            ScanTurnView::Finished { roots } => complete(w, roots),
        },
{
    let at = scan.current;
    let entries = (w.listing)(at);
    let marked = has_marker(entries);
    let roots = if marked {
        scan.roots.push(at)
    } else {
        scan.roots
    };
    let waiting = if marked {
        scan.waiting
    } else {
        scan.waiting + children(at, entries)
    };
    assert(scan_react(scan, listing_at(w, at)) == move_on(waiting, roots));
    lemma_children_are(at, entries);
    assert forall|i: int| 0 <= i < waiting.len() implies reachable(w, #[trigger] waiting[i]) by {
        if i >= scan.waiting.len() {
            let j = i - scan.waiting.len();
            assert(waiting[i] == children(at, entries)[j]);
            assert(leads_on(at, entries, children(at, entries)[j]));
            let e = choose|e: int|
                0 <= e < entries.len() && (#[trigger] entries[e]).is_dir && !is_hidden(
                    entries[e].name,
                ) && children(at, entries)[j] == at.push(entries[e].name);
            lemma_child_is_reachable(w, at, e);
        } else {
            assert(waiting[i] == scan.waiting[i]);
        }
    }
    assert forall|i: int| 0 <= i < roots.len() implies is_found(w, #[trigger] roots[i]) by {
        if i < scan.roots.len() {
            assert(roots[i] == scan.roots[i]);
        }
    }
    assert forall|p: Seq<Seq<char>>| #![trigger is_found(w, p)] is_found(w, p) implies roots.contains(
        p,
    ) || waits_above(waiting, p) by {
        if scan.roots.contains(p) {
            let i = choose|i: int| 0 <= i < scan.roots.len() && scan.roots[i] == p;
            assert(roots[i] == p);
        } else if is_under(p, at) {
            if marked {
                lemma_root_ends_search(w, p, at);
                assert(roots[roots.len() - 1] == p);
            } else {
                let e = lemma_root_is_below_a_child(w, at, p);
                let place = at.push(entries[e].name);
                let j = choose|j: int|
                    0 <= j < children(at, entries).len() && children(at, entries)[j] == place;
                assert(waiting[scan.waiting.len() + j] == place);
            }
        } else {
            let i = choose|i: int| 0 <= i < scan.waiting.len() && is_under(p, #[trigger] scan.waiting[i]);
            assert(waiting[i] == scan.waiting[i]);
        }
    }
    if waiting.len() == 0 {
        assert forall|p: Seq<Seq<char>>| #![trigger is_found(w, p)] roots.contains(p) <==> is_found(
            w,
            p,
        ) by {
            if roots.contains(p) {
                let i = choose|i: int| 0 <= i < roots.len() && roots[i] == p;
                assert(is_found(w, roots[i]));
            }
        }
    } else {
        let next = ScanView { waiting: waiting.drop_last(), current: waiting.last(), roots };
        assert(reachable(w, waiting[waiting.len() - 1]));
        assert forall|i: int| 0 <= i < next.waiting.len() implies reachable(
            w,
            #[trigger] next.waiting[i],
        ) by {
            assert(next.waiting[i] == waiting[i]);
        }
        assert forall|p: Seq<Seq<char>>| #![trigger is_found(w, p)] is_found(w, p) implies next.roots.contains(
            p,
        ) || is_under(p, next.current) || waits_above(next.waiting, p) by {
            if !roots.contains(p) {
                let i = choose|i: int| 0 <= i < waiting.len() && is_under(p, #[trigger] waiting[i]);
                if i < waiting.len() - 1 {
                    assert(next.waiting[i] == waiting[i]);
                }
            }
        }
    }
}

/// A search, every listing given truthfully, ends, if it ends, with the
/// skill roots that it can get to without
/// passing through a skill root or a hidden directory: each of them, and
/// nothing else.
pub proof fn lemma_scan_finds_the_skill_roots(w: World, fuel: nat)
    requires
        plain(w),
    ensures
        run_scan(w, scan_start(), fuel) matches Some(roots) ==> complete(w, roots),
{
    let start = scan_start();
    assert(on_track(w, start)) by {
        assert forall|p: Seq<Seq<char>>| is_under(p, start.current) by {
            assert(p.take(0) =~= start.current);
        }
    }
    lemma_scan_run(w, start, fuel);
}

proof fn lemma_scan_run(w: World, scan: ScanView, fuel: nat)
    requires
        plain(w),
        on_track(w, scan),
    ensures
        run_scan(w, scan, fuel) matches Some(roots) ==> complete(w, roots),
    decreases fuel,
{
    if fuel > 0 {
        lemma_scan_stays_on_track(w, scan);
        match scan_react(scan, listing_at(w, scan.current)) {
            ScanTurnView::Visit { scan: next } => {
                lemma_scan_run(w, next, (fuel - 1) as nat);
            },
            ScanTurnView::Finished { roots } => {},
        }
    }
}

/// The places below the directory `at` that the search goes on to.
pub open spec fn below(w: World, at: Seq<Seq<char>>) -> Seq<Seq<Seq<char>>> {
    children(at, (w.listing)(at))
}

/// The skill roots that the search finds at and below the directory `at`,
/// in the order in which it finds them.
pub open spec fn found_from(w: World, at: Seq<Seq<char>>, depth: nat) -> Seq<Seq<Seq<char>>>
    decreases depth - at.len(), 1nat, 0nat,
{
    if has_marker((w.listing)(at)) {
        seq![at]
    } else {
        found_below(w, at, below(w, at).len() as int, depth)
    }
}

/// The skill roots that the search finds at and below the first `n` of
/// the places below `at`: it takes up the last of them first.
pub open spec fn found_below(w: World, at: Seq<Seq<char>>, n: int, depth: nat) -> Seq<
    Seq<Seq<char>>,
>
    decreases depth - at.len(), 0nat, n,
{
    if n <= 0 || n > below(w, at).len() || at.len() >= depth || below(w, at)[n - 1].len()
        != at.len() + 1 {
        Seq::empty()
    } else {
        found_from(w, below(w, at)[n - 1], depth) + found_below(w, at, n - 1, depth)
    }
}

/// How many directories the search reads at and below the directory `at`.
pub open spec fn visits_from(w: World, at: Seq<Seq<char>>, depth: nat) -> nat
    decreases depth - at.len(), 1nat, 0nat,
{
    if has_marker((w.listing)(at)) {
        1
    } else {
        1 + visits_below(w, at, below(w, at).len() as int, depth)
    }
}

/// How many directories the search reads at and below the first `n` of the
/// places below `at`.
pub open spec fn visits_below(w: World, at: Seq<Seq<char>>, n: int, depth: nat) -> nat
    decreases depth - at.len(), 0nat, n,
{
    if n <= 0 || n > below(w, at).len() || at.len() >= depth || below(w, at)[n - 1].len()
        != at.len() + 1 {
        0
    } else {
        visits_from(w, below(w, at)[n - 1], depth) + visits_below(w, at, n - 1, depth)
    }
}

/// How a search ends once it is done with a place, with `waiting` yet to be
/// visited and `roots` found.
pub open spec fn go_on(
    w: World,
    waiting: Seq<Seq<Seq<char>>>,
    roots: Seq<Seq<Seq<char>>>,
    fuel: nat,
) -> Option<Seq<Seq<Seq<char>>>> {
    match move_on(waiting, roots) {
        ScanTurnView::Finished { roots } => Some(roots),
        ScanTurnView::Visit { scan } => run_scan(w, scan, fuel),
    }
}

proof fn lemma_below_is_a_directory(w: World, at: Seq<Seq<char>>, j: int)
    requires
        plain(w),
        w.source.contains_key(at),
        w.source[at] is Dir,
        0 <= j < below(w, at).len(),
    ensures
        w.source.contains_key(below(w, at)[j]),
        w.source[below(w, at)[j]] is Dir,
        below(w, at)[j].len() == at.len() + 1,
{
    let entries = (w.listing)(at);
    lemma_children_are(at, entries);
    assert(leads_on(at, entries, below(w, at)[j]));
    let i = choose|i: int|
        0 <= i < entries.len() && (#[trigger] entries[i]).is_dir && !is_hidden(entries[i].name)
            && below(w, at)[j] == at.push(entries[i].name);
}

proof fn lemma_visit_ends(
    w: World,
    waiting: Seq<Seq<Seq<char>>>,
    at: Seq<Seq<char>>,
    roots: Seq<Seq<Seq<char>>>,
    depth: nat,
    fuel: nat,
)
    requires
        plain(w),
        shallow(w, depth),
        w.source.contains_key(at),
        w.source[at] is Dir,
        fuel >= visits_from(w, at, depth),
    ensures
        run_scan(w, ScanView { waiting, current: at, roots }, fuel) == go_on(
            w,
            waiting,
            roots + found_from(w, at, depth),
            (fuel - visits_from(w, at, depth)) as nat,
        ),
    decreases depth - at.len(), 1nat, 0nat,
{
    let scan = ScanView { waiting, current: at, roots };
    let entries = (w.listing)(at);
    if has_marker(entries) {
        assert(roots + seq![at] =~= roots.push(at));
        assert(scan_react(scan, listing_at(w, at)) == move_on(waiting, roots.push(at)));
    } else {
        let all = below(w, at);
        assert(scan_react(scan, listing_at(w, at)) == move_on(waiting + all, roots));
        assert(run_scan(w, scan, fuel) == go_on(w, waiting + all, roots, (fuel - 1) as nat));
        assert(all.take(all.len() as int) =~= all);
        lemma_below_ends(w, waiting, at, all.len() as int, roots, depth, (fuel - 1) as nat);
    }
}

proof fn lemma_below_ends(
    w: World,
    waiting: Seq<Seq<Seq<char>>>,
    at: Seq<Seq<char>>,
    n: int,
    roots: Seq<Seq<Seq<char>>>,
    depth: nat,
    fuel: nat,
)
    requires
        plain(w),
        shallow(w, depth),
        w.source.contains_key(at),
        w.source[at] is Dir,
        0 <= n <= below(w, at).len(),
        fuel >= visits_below(w, at, n, depth),
    ensures
        go_on(w, waiting + below(w, at).take(n), roots, fuel) == go_on(
            w,
            waiting,
            roots + found_below(w, at, n, depth),
            (fuel - visits_below(w, at, n, depth)) as nat,
        ),
    decreases depth - at.len(), 0nat, n,
{
    let all = below(w, at);
    if n == 0 {
        assert(waiting + all.take(0) =~= waiting);
        assert(roots + Seq::<Seq<Seq<char>>>::empty() =~= roots);
    } else {
        lemma_below_is_a_directory(w, at, n - 1);
        let next = all[n - 1];
        assert(next.len() <= depth);
        let stack = waiting + all.take(n);
        assert(stack.last() == next);
        assert(stack.drop_last() =~= waiting + all.take(n - 1));
        let used = visits_from(w, next, depth);
        lemma_visit_ends(w, waiting + all.take(n - 1), next, roots, depth, fuel);
        lemma_below_ends(
            w,
            waiting,
            at,
            n - 1,
            roots + found_from(w, next, depth),
            depth,
            (fuel - used) as nat,
        );
        assert(roots + found_from(w, next, depth) + found_below(w, at, n - 1, depth) =~= roots + (
        found_from(w, next, depth) + found_below(w, at, n - 1, depth)));
    }
}

/// A search on a tree of bounded depth, every listing given truthfully,
/// comes to an end: after as many listings as there are
/// directories that it gets to, it is finished, and what it has found are
/// the skill roots that it can get to, each of them and nothing else.
pub proof fn lemma_scan_ends(w: World, depth: nat)
    requires
        plain(w),
        shallow(w, depth),
    ensures
        run_scan(w, scan_start(), visits_from(w, Seq::empty(), depth)) == Some(
            found_from(w, Seq::empty(), depth),
        ),
        complete(w, found_from(w, Seq::empty(), depth)),
{
    let top = Seq::<Seq<char>>::empty();
    let none = Seq::<Seq<Seq<char>>>::empty();
    let fuel = visits_from(w, top, depth);
    assert(scan_start() == ScanView { waiting: none, current: top, roots: none });
    lemma_visit_ends(w, none, top, none, depth, fuel);
    assert(none + found_from(w, top, depth) =~= found_from(w, top, depth));
    lemma_scan_finds_the_skill_roots(w, fuel);
}

/// No skill root that a search finds lies inside another: the search does
/// not go down into a skill root.
pub proof fn lemma_found_roots_are_not_nested(w: World, inner: Seq<Seq<char>>, outer: Seq<Seq<char>>)
    requires
        is_found(w, inner),
        is_found(w, outer),
        is_under(inner, outer),
    ensures
        inner == outer,
{
    lemma_root_ends_search(w, inner, outer);
}

} // verus!
