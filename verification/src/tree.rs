//! A model of what lies on a disk: a tree of files and directories, and
//! what reading its directories gives.
//!
//! A place is the list of names that lead to it from the root. A name may
//! be that of a symbolic link: the tree holds what is found at a place
//! once every link on the way to it, and at it, has been followed.

use crate::listing::{EntryKind, EntryView};
use vstd::prelude::*;

verus! {

/// What stands at a place of a tree.
pub enum Item {
    File(Seq<u8>),
    Dir,
}

/// A disk as its reader gets to see it.
pub struct World {
    /// The source tree: the file or directory that is found at each place,
    /// symbolic links followed.
    pub source: Map<Seq<Seq<char>>, Item>,
    /// The entries that reading a directory gives, in the order in which it
    /// gives them.
    pub listing: spec_fn(Seq<Seq<char>>) -> Seq<EntryView>,
    /// The canonical path of what is found at a place.
    pub canonical: spec_fn(Seq<Seq<char>>) -> Seq<char>,
}

/// Whether the place `p` is `t` or lies below it.
pub open spec fn is_under(p: Seq<Seq<char>>, t: Seq<Seq<char>>) -> bool {
    t.len() <= p.len() && p.take(t.len() as int) == t
}

/// The kind of entry that an item shows up as.
pub open spec fn kind_of(item: Item) -> EntryKind {
    match item {
        Item::File(_) => EntryKind::File,
        Item::Dir => EntryKind::Dir,
    }
}

/// Whether `tree` is a tree: its root is a directory, and whatever exists
/// lies in a directory that exists.
pub open spec fn is_tree(tree: Map<Seq<Seq<char>>, Item>) -> bool {
    &&& tree.contains_key(Seq::empty())
    &&& tree[Seq::empty()] is Dir
    &&& forall|p: Seq<Seq<char>>|
        #![trigger tree.contains_key(p)]
        tree.contains_key(p) && p.len() > 0 ==> tree.contains_key(p.drop_last())
            && tree[p.drop_last()] is Dir
}

/// Whether an entry of the kind `kind` goes with what `tree` holds at the
/// entry's place: a file is a file and a directory a directory, a symbolic
/// link leads to one or the other, and anything else is no part of the
/// tree. An entry whose kind could not be read goes with nothing.
pub open spec fn goes_with(kind: EntryKind, tree: Map<Seq<Seq<char>>, Item>, place: Seq<Seq<char>>) -> bool {
    match kind {
        EntryKind::File => tree.contains_key(place) && tree[place] is File,
        EntryKind::Dir => tree.contains_key(place) && tree[place] is Dir,
        EntryKind::Symlink => tree.contains_key(place),
        EntryKind::Other => !tree.contains_key(place),
        EntryKind::Unknown => false,
    }
}

/// Whether `entries` is what reading the directory `t` of `tree` gives:
/// each thing in the directory once, under its name and with its kind.
#[verifier::opaque]
pub open spec fn lists(tree: Map<Seq<Seq<char>>, Item>, t: Seq<Seq<char>>, entries: Seq<EntryView>) -> bool {
    &&& forall|i: int, j: int|
        0 <= i < j < entries.len() ==> (#[trigger] entries[i]).name != (#[trigger] entries[j]).name
    &&& forall|i: int|
        0 <= i < entries.len() ==> goes_with(
            (#[trigger] entries[i]).kind,
            tree,
            t.push(entries[i].name),
        )
    &&& forall|name: Seq<char>|
        tree.contains_key(#[trigger] t.push(name)) ==> exists|i: int|
            0 <= i < entries.len() && (#[trigger] entries[i]).name == name
}

/// Whether the world is one that a disk can be on which every symbolic
/// link leads to a file or a directory, and none leads back to a directory
/// above it: the source is a tree, every directory is listed truthfully,
/// and no place has the canonical path of a place above it.
pub open spec fn honest(w: World) -> bool {
    &&& is_tree(w.source)
    &&& forall|t: Seq<Seq<char>>|
        #![trigger (w.listing)(t)]
        w.source.contains_key(t) && w.source[t] is Dir ==> lists(w.source, t, (w.listing)(t))
    &&& forall|p: Seq<Seq<char>>, n: int|
        #![trigger (w.canonical)(p.take(n))]
        w.source.contains_key(p) && 0 <= n < p.len() ==> (w.canonical)(p.take(n)) != (
        w.canonical)(p)
}

/// Whether no place of the source lies more than `depth` names below the
/// root.
pub open spec fn shallow(w: World, depth: nat) -> bool {
    forall|p: Seq<Seq<char>>| #![trigger w.source.contains_key(p)] w.source.contains_key(p) ==> p.len() <= depth
}

/// The place of entry `k` of the directory `t`.
pub open spec fn child(w: World, t: Seq<Seq<char>>, k: int) -> Seq<Seq<char>> {
    t.push((w.listing)(t)[k].name)
}

/// In an honest world every entry of a directory goes with what the tree
/// holds at its place.
pub proof fn lemma_entry_is_there(w: World, t: Seq<Seq<char>>, k: int)
    requires
        honest(w),
        w.source.contains_key(t),
        w.source[t] is Dir,
        0 <= k < (w.listing)(t).len(),
    ensures
        goes_with((w.listing)(t)[k].kind, w.source, child(w, t, k)),
{
    reveal(lists);
    assert(lists(w.source, t, (w.listing)(t)));
}

/// Whatever lies above a place of a tree is there too, and is a
/// directory.
pub proof fn lemma_parents_exist(tree: Map<Seq<Seq<char>>, Item>, p: Seq<Seq<char>>, n: int)
    requires
        is_tree(tree),
        tree.contains_key(p),
        0 <= n <= p.len(),
    ensures
        tree.contains_key(p.take(n)),
        n < p.len() ==> tree[p.take(n)] is Dir,
    decreases p.len() - n,
{
    if n == p.len() {
        assert(p.take(n) =~= p);
    } else {
        lemma_parents_exist(tree, p, n + 1);
        let q = p.take(n + 1);
        assert(tree.contains_key(q));
        assert(q.drop_last() =~= p.take(n));
    }
}

/// Every entry of a truthful listing goes with what the tree holds at its
/// place.
pub proof fn lemma_listed_is_there(w: World, t: Seq<Seq<char>>, k: int)
    requires
        lists(w.source, t, (w.listing)(t)),
        0 <= k < (w.listing)(t).len(),
    ensures
        goes_with((w.listing)(t)[k].kind, w.source, child(w, t, k)),
{
    reveal(lists);
}

/// Whatever lies in a directory is an entry of its truthful listing.
pub proof fn lemma_listed_is_found(w: World, t: Seq<Seq<char>>, name: Seq<char>) -> (i: int)
    requires
        lists(w.source, t, (w.listing)(t)),
        w.source.contains_key(t.push(name)),
    ensures
        0 <= i < (w.listing)(t).len(),
        (w.listing)(t)[i].name == name,
{
    reveal(lists);
    choose|i: int| 0 <= i < (w.listing)(t).len() && (#[trigger] (w.listing)(t)[i]).name == name
}

} // verus!
