//! Finding the skill roots under a directory.
//!
//! A skill root is a directory that holds a marker file. The search goes
//! down from the directory it is given, and stops going down wherever it
//! finds a skill root. Directories whose name begins with a dot are not
//! entered, and a directory that cannot be read is passed over.
//!
//! The scan decides; its caller reads the disk. A place is written as the
//! list of names that lead to it from the directory the search began at.

use crate::listing::{entry_views, hidden, is_hidden, is_marker, marker, DirEntry, EntryKind, EntryView};
use crate::order::copy_names;
use vstd::prelude::*;

verus! {

/// Whether a directory with these entries is a skill root.
pub open spec fn has_marker(entries: Seq<EntryView>) -> bool {
    exists|i: int| 0 <= i < entries.len() && is_marker(#[trigger] entries[i])
}

/// The index of the first entry at or after `from` that is a marker file or
/// whose kind could not be read, or the number of entries.
pub open spec fn first_decisive(entries: Seq<EntryView>, from: int) -> int
    decreases entries.len() - from,
{
    if 0 <= from < entries.len() && !is_marker(entries[from]) && entries[from].kind
        != EntryKind::Unknown {
        first_decisive(entries, from + 1)
    } else {
        from
    }
}

/// The name of the marker file among `entries`: that of the first one,
/// unless an entry before it is of a kind that could not be read.
pub open spec fn marker_name(entries: Seq<EntryView>) -> Option<Seq<char>> {
    let at = first_decisive(entries, 0);
    if 0 <= at < entries.len() && is_marker(entries[at]) {
        Some(entries[at].name)
    } else {
        None
    }
}

/// Whether a directory with these entries holds a marker file.
pub fn dir_contains_skill_md(entries: &Vec<DirEntry>) -> (r: bool)
    ensures
        r == has_marker(entry_views(entries@)),
{
    let mut i: usize = 0;
    while i < entries.len()
        invariant
            i <= entries.len(),
            forall|k: int| 0 <= k < i ==> !is_marker(#[trigger] entry_views(entries@)[k]),
        decreases entries.len() - i,
    {
        if marker(&entries[i]) {
            assert(is_marker(entry_views(entries@)[i as int]));
            return true;
        }
        i += 1;
    }
    false
}

/// The name of the marker file of a directory with these entries.
pub fn find_skill_md_path(entries: &Vec<DirEntry>) -> (out: Option<String>)
    ensures
        out.deep_view() == marker_name(entry_views(entries@)),
{
    let ghost all = entry_views(entries@);
    let mut i: usize = 0;
    while i < entries.len()
        invariant
            i <= entries.len(),
            all == entry_views(entries@),
            first_decisive(all, 0) == first_decisive(all, i as int),
        decreases entries.len() - i,
    {
        let entry = &entries[i];
        assert(all[i as int] == entry@);
        if marker(entry) {
            return Some(entry.name.clone());
        }
        if entry.kind == EntryKind::Unknown {
            return None;
        }
        i += 1;
    }
    None
}

/// The places below `at` that the search goes on to: one for each entry
/// that is a directory, links followed, and is not hidden.
pub open spec fn children(at: Seq<Seq<char>>, entries: Seq<EntryView>) -> Seq<Seq<Seq<char>>>
    decreases entries.len(),
{
    if entries.len() == 0 {
        Seq::empty()
    } else {
        let rest = children(at, entries.drop_last());
        let entry = entries.last();
        if entry.is_dir && !is_hidden(entry.name) {
            rest.push(at.push(entry.name))
        } else {
            rest
        }
    }
}

/// The state of a scan.
pub struct ScanView {
    /// The places still to be visited; the last one is visited next.
    pub waiting: Seq<Seq<Seq<char>>>,
    /// The place that the caller was asked to read.
    pub current: Seq<Seq<char>>,
    /// The skill roots found so far.
    pub roots: Seq<Seq<Seq<char>>>,
}

/// What a scan makes of a listing.
pub enum ScanTurnView {
    /// Read the directory at `scan.current`.
    Visit { scan: ScanView },
    /// The search is over; these are the skill roots.
    Finished { roots: Seq<Seq<Seq<char>>> },
}

/// The scan once the place it asked for has been dealt with: it goes on to
/// the place that was put by last, or is finished where none is left.
pub open spec fn move_on(waiting: Seq<Seq<Seq<char>>>, roots: Seq<Seq<Seq<char>>>) -> ScanTurnView {
    if waiting.len() == 0 {
        ScanTurnView::Finished { roots }
    } else {
        ScanTurnView::Visit {
            scan: ScanView { waiting: waiting.drop_last(), current: waiting.last(), roots },
        }
    }
}

/// What the scan makes of the listing of the place it asked for: `None`
/// where the place is no directory or could not be read.
pub open spec fn scan_react(scan: ScanView, listing: Option<Seq<EntryView>>) -> ScanTurnView {
    match listing {
        None => move_on(scan.waiting, scan.roots),
        Some(entries) => if has_marker(entries) {
            move_on(scan.waiting, scan.roots.push(scan.current))
        } else {
            move_on(scan.waiting + children(scan.current, entries), scan.roots)
        },
    }
}

/// The scan at its start, asking for the directory the search begins at.
pub open spec fn scan_start() -> ScanView {
    ScanView { waiting: Seq::empty(), current: Seq::empty(), roots: Seq::empty() }
}

/// The places that a list of name lists stands for.
pub open spec fn places(list: Seq<Vec<String>>) -> Seq<Seq<Seq<char>>> {
    Seq::new(list.len(), |i: int| list[i].deep_view())
}

/// A search in progress.
pub struct SkillScan {
    waiting: Vec<Vec<String>>,
    current: Vec<String>,
    roots: Vec<Vec<String>>,
}

/// What a scan asks of its caller after a listing was handed in.
pub enum ScanTurn {
    /// Read the directory at `rel` and hand the listing to `scan`.
    Visit { scan: SkillScan, rel: Vec<String> },
    /// The search is over; these are the skill roots.
    Finished { roots: Vec<Vec<String>> },
}

impl View for SkillScan {
    type V = ScanView;

    closed spec fn view(&self) -> ScanView {
        ScanView {
            waiting: places(self.waiting@),
            current: self.current.deep_view(),
            roots: places(self.roots@),
        }
    }
}

impl ScanTurn {
    /// The turn as plain values.
    pub open spec fn shape(self) -> ScanTurnView {
        match self {
            ScanTurn::Visit { scan, rel } => ScanTurnView::Visit { scan: scan@ },
            ScanTurn::Finished { roots } => ScanTurnView::Finished { roots: places(roots@) },
        }
    }
}

fn go_on(waiting: Vec<Vec<String>>, roots: Vec<Vec<String>>) -> (turn: ScanTurn)
    ensures
        turn.shape() == move_on(places(waiting@), places(roots@)),
        turn matches ScanTurn::Visit { scan, rel } ==> rel.deep_view() == scan@.current,
{
    let mut waiting = waiting;
    let ghost before = places(waiting@);
    match waiting.pop() {
        None => ScanTurn::Finished { roots },
        Some(next) => {
            assert(places(waiting@) =~= before.drop_last());
            assert(before.last() == next.deep_view());
            let rel = copy_names(&next);
            ScanTurn::Visit { scan: SkillScan { waiting, current: next, roots }, rel }
        },
    }
}

impl SkillScan {
    /// Starts a search. The caller reads the directory the search begins
    /// at, which is the place with no names, and hands the listing to
    /// `advance`.
    pub fn begin() -> (scan: SkillScan)
        ensures
            scan@ == scan_start(),
    {
        let scan = SkillScan { waiting: Vec::new(), current: Vec::new(), roots: Vec::new() };
        proof {
            assert(places(scan.waiting@) =~= Seq::empty());
            assert(places(scan.roots@) =~= Seq::empty());
            assert(scan.current.deep_view() =~= Seq::empty());
        }
        scan
    }

    /// Takes the listing of the place last asked for and says what comes
    /// next. `None` stands for a place that is no directory or could not
    /// be read.
    pub fn advance(self, listing: Option<Vec<DirEntry>>) -> (turn: ScanTurn)
        ensures
            turn.shape() == scan_react(
                self@,
                match listing {
                    Some(entries) => Some(entry_views(entries@)),
                    None => None,
                },
            ),
            turn matches ScanTurn::Visit { scan, rel } ==> rel.deep_view() == scan@.current,
    {
        let SkillScan { waiting, current, roots } = self;
        match listing {
            None => go_on(waiting, roots),
            Some(entries) => {
                if dir_contains_skill_md(&entries) {
                    let ghost before = places(roots@);
                    let mut roots = roots;
                    roots.push(current);
                    assert(places(roots@) =~= before.push(current.deep_view()));
                    go_on(waiting, roots)
                } else {
                    let ghost before = places(waiting@);
                    let ghost all = entry_views(entries@);
                    let mut waiting = waiting;
                    let mut i: usize = 0;
                    assert(all.take(0) =~= Seq::empty());
                    assert(before + Seq::<Seq<Seq<char>>>::empty() =~= before);
                    while i < entries.len()
                        invariant
                            i <= entries.len(),
                            all == entry_views(entries@),
                            places(waiting@) == before + children(
                                current.deep_view(),
                                all.take(i as int),
                            ),
                        decreases entries.len() - i,
                    {
                        let entry = &entries[i];
                        let ghost so_far = children(current.deep_view(), all.take(i as int));
                        proof {
                            assert(all.take(i + 1).drop_last() =~= all.take(i as int));
                            assert(all.take(i + 1).last() == entry@);
                        }
                        if entry.is_dir && !hidden(entry.name.as_str()) {
                            let mut place = copy_names(&current);
                            place.push(entry.name.clone());
                            assert(place.deep_view() =~= current.deep_view().push(entry@.name));
                            let ghost prior = places(waiting@);
                            waiting.push(place);
                            assert(places(waiting@) =~= prior.push(place.deep_view()));
                            assert(before + so_far.push(place.deep_view()) =~= (before
                                + so_far).push(place.deep_view()));
                        }
                        i += 1;
                    }
                    assert(all.take(entries.len() as int) =~= all);
                    go_on(waiting, roots)
                }
            },
        }
    }
}

} // verus!
