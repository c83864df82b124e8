//! Moving what a directory holds into another directory.
//!
//! The run decides; its caller touches the disk. Nothing is touched before
//! the run has seen that source and destination are different places, that
//! the destination does not lie inside the source, and that no entry of the
//! source would land on an entry of the destination. Only then is the
//! destination created, where it is missing, and the entries moved. A move
//! that is refused leaves source and destination as they were.
//!
//! Where there is no source there is nothing to move: the destination is
//! created, and that is all.
//!
//! Each entry is renamed into the destination. Where the file system
//! refuses that, the entry is copied and then removed from the source. At
//! the end the emptied source is removed; if that fails, the move has
//! succeeded all the same.

use crate::error::{ErrorView, Place, SyncError};
use crate::listing::EntryKind;
use crate::order::{ordered, sorted_names};
use crate::paths::{is_same_path, nested_in, one_location, prevent_nested_move, Resolved};
use crate::text::{chars_of, extend, string_of};
use vstd::prelude::*;

verus! {

/// An entry of the source directory.
#[derive(Debug)]
pub struct MoveEntry {
    pub name: String,
    pub kind: EntryKind,
    /// Whether the destination holds an entry of the same name.
    pub in_destination: bool,
}

/// What a `MoveEntry` holds, as plain values.
pub struct MoveEntryView {
    pub name: Seq<char>,
    pub kind: EntryKind,
    pub in_destination: bool,
}

impl View for MoveEntry {
    type V = MoveEntryView;

    open spec fn view(&self) -> MoveEntryView {
        MoveEntryView { name: self.name@, kind: self.kind, in_destination: self.in_destination }
    }
}

/// The views of a list of entries.
pub open spec fn move_entries(entries: Seq<MoveEntry>) -> Seq<MoveEntryView> {
    Seq::new(entries.len(), |i: int| entries[i]@)
}

/// What the caller is to do next. A name is that of an entry of the
/// source, which goes to the entry of the same name in the destination.
#[derive(Debug)]
pub enum MoveRequest {
    /// Does the source exist, and is it a directory? Answer with `Probed`.
    Probe,
    /// Create the destination directory, and what leads to it, unless it
    /// is there. Answer with `Created`.
    CreateDestination,
    /// Look, and change nothing: resolve source and destination, see
    /// whether the destination exists and whether it is a directory, and
    /// read the source. A destination that does not exist yet is resolved
    /// as far as it exists: the resolved form of the nearest directory
    /// above it that is there, with the names that are missing after it.
    /// Answer with `Surveyed`.
    Survey,
    /// Rename the entry into the destination. Answer with `Renamed`, or
    /// with `RenameRefused` where the file system would not.
    Rename { name: String },
    /// Copy the directory tree. Answer with `Copied`.
    CopyTree { name: String },
    /// Copy the file. Answer with `Copied`.
    CopyFile { name: String },
    /// Remove the directory tree from the source. Answer with `Removed`.
    RemoveDir { name: String },
    /// Remove the file from the source. Answer with `Removed`.
    RemoveFile { name: String },
    /// Remove the source directory, which is empty now. Answer with
    /// `Removed`, or with `Failed`: the move has succeeded either way.
    RemoveSource,
}

/// What a `MoveRequest` holds, as plain values.
pub enum MoveRequestView {
    Probe,
    CreateDestination,
    Survey,
    Rename { name: Seq<char> },
    CopyTree { name: Seq<char> },
    CopyFile { name: Seq<char> },
    RemoveDir { name: Seq<char> },
    RemoveFile { name: Seq<char> },
    RemoveSource,
}

impl View for MoveRequest {
    type V = MoveRequestView;

    open spec fn view(&self) -> MoveRequestView {
        match self {
            MoveRequest::Probe => MoveRequestView::Probe,
            MoveRequest::CreateDestination => MoveRequestView::CreateDestination,
            MoveRequest::Survey => MoveRequestView::Survey,
            MoveRequest::Rename { name } => MoveRequestView::Rename { name: name@ },
            MoveRequest::CopyTree { name } => MoveRequestView::CopyTree { name: name@ },
            MoveRequest::CopyFile { name } => MoveRequestView::CopyFile { name: name@ },
            MoveRequest::RemoveDir { name } => MoveRequestView::RemoveDir { name: name@ },
            MoveRequest::RemoveFile { name } => MoveRequestView::RemoveFile { name: name@ },
            MoveRequest::RemoveSource => MoveRequestView::RemoveSource,
        }
    }
}

/// What came of the last request.
pub enum MoveEvent {
    Probed { exists: bool, is_dir: bool },
    Created,
    Surveyed {
        from: Resolved,
        to: Resolved,
        to_exists: bool,
        to_is_dir: bool,
        /// The entries of the source, or why they could not be read.
        listing: Result<Vec<MoveEntry>, String>,
    },
    Renamed,
    RenameRefused,
    Copied,
    Removed,
    /// The file system refused; `message` tells what and why.
    Failed { message: String },
}

/// The event that a run waits for.
#[derive(Clone, Copy, Debug, PartialEq, Eq, Structural)]
pub enum Stage {
    Probed,
    Surveyed,
    /// The destination is being created; `moving` says whether there is
    /// a source whose entries are moved once it is there.
    Created { moving: bool },
    Renamed,
    CopiedTree,
    CopiedFile,
    RemovedEntry,
    RemovedSource,
}

/// The state of a run.
pub struct MoveView {
    /// The source as it is shown in messages.
    pub from: Seq<char>,
    pub stage: Stage,
    /// The entries still to be moved; the first is the one being moved.
    pub pending: Seq<MoveEntryView>,
}

/// What a run makes of an event.
pub enum MoveTurnView {
    Ask { run: MoveView, request: MoveRequestView },
    Finished { outcome: Result<(), ErrorView> },
}

/// The names of the entries that the destination holds too, in the order
/// of the listing.
pub open spec fn conflicts(entries: Seq<MoveEntryView>) -> Seq<Seq<char>>
    decreases entries.len(),
{
    if entries.len() == 0 {
        Seq::empty()
    } else if entries.last().in_destination {
        conflicts(entries.drop_last()).push(entries.last().name)
    } else {
        conflicts(entries.drop_last())
    }
}

/// What the run does with the entries that are left: it asks for the first
/// to be renamed, or for the source to be removed where none is left. An
/// entry whose kind could not be read ends the run.
pub open spec fn take_next(from: Seq<char>, pending: Seq<MoveEntryView>) -> MoveTurnView {
    if pending.len() == 0 {
        MoveTurnView::Ask {
            run: MoveView { from, stage: Stage::RemovedSource, pending },
            request: MoveRequestView::RemoveSource,
        }
    } else if pending[0].kind == EntryKind::Unknown {
        MoveTurnView::Finished {
            outcome: Err(
                ErrorView::IoFailure {
                    message: "Failed to read file type for "@ + from + seq!['/'] + pending[0].name,
                },
            ),
        }
    } else {
        MoveTurnView::Ask {
            run: MoveView { from, stage: Stage::Renamed, pending },
            request: MoveRequestView::Rename { name: pending[0].name },
        }
    }
}

/// What the run makes of a survey.
///
/// Where source and destination are one place there is nothing to do. A
/// destination inside the source is refused, and so is one that exists and
/// is no directory, and one that holds an entry under a name that the
/// source uses too: the error lists those names in ascending order. Where
/// none of this stands in the way, the run asks for the destination to be
/// created.
pub open spec fn judge(
    shown: Seq<char>,
    from: Resolved,
    to: Resolved,
    to_exists: bool,
    to_is_dir: bool,
    listing: Result<Vec<MoveEntry>, String>,
) -> MoveTurnView {
    if one_location(from, to) {
        MoveTurnView::Finished { outcome: Ok(()) }
    } else if nested_in(from, to) {
        MoveTurnView::Finished {
            outcome: Err(ErrorView::NestedDestination { from: from.path@, to: to.path@ }),
        }
    } else if to_exists && !to_is_dir {
        MoveTurnView::Finished {
            outcome: Err(ErrorView::NotADirectory { place: Place::Destination, path: to.path@ }),
        }
    } else {
        match listing {
            Err(message) => MoveTurnView::Finished {
                outcome: Err(ErrorView::IoFailure { message: message@ }),
            },
            Ok(entries) => if conflicts(move_entries(entries@)).len() > 0 {
                MoveTurnView::Finished {
                    outcome: Err(
                        ErrorView::DestinationConflict {
                            names: ordered(conflicts(move_entries(entries@))),
                        },
                    ),
                }
            } else {
                MoveTurnView::Ask {
                    run: MoveView {
                        from: shown,
                        stage: Stage::Created { moving: true },
                        pending: move_entries(entries@),
                    },
                    request: MoveRequestView::CreateDestination,
                }
            },
        }
    }
}

/// What the run `run` makes of `event`.
///
/// A source that is a directory is surveyed before anything is touched; a
/// source that is missing has the destination created, and that is all; a
/// source that is something else is refused. A refusal of the file system
/// ends the run with that failure, except where the source was to be
/// removed at the end. An event that the run did not wait for ends it
/// too.
pub open spec fn react(run: MoveView, event: MoveEvent) -> MoveTurnView {
    let out_of_turn = MoveTurnView::Finished {
        outcome: Err(ErrorView::IoFailure { message: "Event out of turn in move of "@ + run.from }),
    };
    match run.stage {
        Stage::RemovedSource => MoveTurnView::Finished { outcome: Ok(()) },
        Stage::Probed => match event {
            MoveEvent::Failed { message } => MoveTurnView::Finished {
                outcome: Err(ErrorView::IoFailure { message: message@ }),
            },
            MoveEvent::Probed { exists, is_dir } => if !exists {
                MoveTurnView::Ask {
                    run: MoveView {
                        from: run.from,
                        stage: Stage::Created { moving: false },
                        pending: run.pending,
                    },
                    request: MoveRequestView::CreateDestination,
                }
            } else if !is_dir {
                MoveTurnView::Finished {
                    outcome: Err(
                        ErrorView::NotADirectory { place: Place::MoveSource, path: run.from },
                    ),
                }
            } else {
                MoveTurnView::Ask {
                    run: MoveView { from: run.from, stage: Stage::Surveyed, pending: run.pending },
                    request: MoveRequestView::Survey,
                }
            },
            _ => out_of_turn,
        },
        Stage::Surveyed => match event {
            MoveEvent::Failed { message } => MoveTurnView::Finished {
                outcome: Err(ErrorView::IoFailure { message: message@ }),
            },
            MoveEvent::Surveyed { from, to, to_exists, to_is_dir, listing } => judge(
                run.from,
                from,
                to,
                to_exists,
                to_is_dir,
                listing,
            ),
            _ => out_of_turn,
        },
        Stage::Created { moving } => match event {
            MoveEvent::Failed { message } => MoveTurnView::Finished {
                outcome: Err(ErrorView::IoFailure { message: message@ }),
            },
            MoveEvent::Created => if moving {
                take_next(run.from, run.pending)
            } else {
                MoveTurnView::Finished { outcome: Ok(()) }
            },
            _ => out_of_turn,
        },
        Stage::Renamed => match event {
            MoveEvent::Failed { message } => MoveTurnView::Finished {
                outcome: Err(ErrorView::IoFailure { message: message@ }),
            },
            MoveEvent::Renamed => take_next(run.from, run.pending.drop_first()),
            MoveEvent::RenameRefused => if run.pending[0].kind == EntryKind::Dir {
                MoveTurnView::Ask {
                    run: MoveView { from: run.from, stage: Stage::CopiedTree, pending: run.pending },
                    request: MoveRequestView::CopyTree { name: run.pending[0].name },
                }
            } else {
                MoveTurnView::Ask {
                    run: MoveView { from: run.from, stage: Stage::CopiedFile, pending: run.pending },
                    request: MoveRequestView::CopyFile { name: run.pending[0].name },
                }
            },
            _ => out_of_turn,
        },
        Stage::CopiedTree => match event {
            MoveEvent::Failed { message } => MoveTurnView::Finished {
                outcome: Err(ErrorView::IoFailure { message: message@ }),
            },
            MoveEvent::Copied => MoveTurnView::Ask {
                run: MoveView { from: run.from, stage: Stage::RemovedEntry, pending: run.pending },
                request: MoveRequestView::RemoveDir { name: run.pending[0].name },
            },
            _ => out_of_turn,
        },
        Stage::CopiedFile => match event {
            MoveEvent::Failed { message } => MoveTurnView::Finished {
                outcome: Err(ErrorView::IoFailure { message: message@ }),
            },
            MoveEvent::Copied => MoveTurnView::Ask {
                run: MoveView { from: run.from, stage: Stage::RemovedEntry, pending: run.pending },
                request: MoveRequestView::RemoveFile { name: run.pending[0].name },
            },
            _ => out_of_turn,
        },
        Stage::RemovedEntry => match event {
            MoveEvent::Failed { message } => MoveTurnView::Finished {
                outcome: Err(ErrorView::IoFailure { message: message@ }),
            },
            MoveEvent::Removed => take_next(run.from, run.pending.drop_first()),
            _ => out_of_turn,
        },
    }
}

/// The run at its start, about to look at the source.
pub open spec fn initial(from: Seq<char>) -> MoveView {
    MoveView { from, stage: Stage::Probed, pending: Seq::empty() }
}

/// A move in progress.
pub struct MoveRun {
    from: String,
    stage: Stage,
    entries: Vec<MoveEntry>,
    next: usize,
}

/// What a run asks of its caller after an event was handed in.
pub enum MoveTurn {
    /// Do what `request` says and hand what comes of it to `run`.
    Ask { run: MoveRun, request: MoveRequest },
    /// The move is over, with `outcome`.
    Finished { outcome: Result<(), SyncError> },
}

impl View for MoveRun {
    type V = MoveView;

    closed spec fn view(&self) -> MoveView {
        MoveView {
            from: self.from@,
            stage: self.stage,
            pending: move_entries(self.entries@).skip(self.next as int),
        }
    }
}

impl View for MoveTurn {
    type V = MoveTurnView;

    open spec fn view(&self) -> MoveTurnView {
        match self {
            MoveTurn::Ask { run, request } => MoveTurnView::Ask { run: run@, request: request@ },
            MoveTurn::Finished { outcome } => MoveTurnView::Finished {
                outcome: match outcome {
                    Ok(()) => Ok(()),
                    Err(e) => Err(e@),
                },
            },
        }
    }
}

spec fn at_entry(stage: Stage) -> bool {
    stage == Stage::Renamed || stage == Stage::CopiedTree || stage == Stage::CopiedFile || stage
        == Stage::RemovedEntry
}

fn failed(message: String) -> (turn: MoveTurn)
    ensures
        turn@ == (MoveTurnView::Finished {
            outcome: Err(ErrorView::IoFailure { message: message@ }),
        }),
{
    MoveTurn::Finished { outcome: Err(SyncError::IoFailure { message }) }
}

fn out_of_turn(from: &str) -> (turn: MoveTurn)
    ensures
        turn@ == (MoveTurnView::Finished {
            outcome: Err(
                ErrorView::IoFailure { message: "Event out of turn in move of "@ + from@ },
            ),
        }),
{
    let mut message = chars_of("Event out of turn in move of ");
    extend(&mut message, &chars_of(from));
    failed(string_of(&message))
}

fn conflicts_of(entries: &Vec<MoveEntry>) -> (out: Vec<String>)
    ensures
        out.deep_view() == conflicts(move_entries(entries@)),
{
    let ghost all = move_entries(entries@);
    let mut out: Vec<String> = Vec::new();
    let mut i: usize = 0;
    assert(all.take(0) =~= Seq::empty());
    assert(out.deep_view() =~= Seq::empty());
    while i < entries.len()
        invariant
            i <= entries.len(),
            all == move_entries(entries@),
            out.deep_view() == conflicts(all.take(i as int)),
        decreases entries.len() - i,
    {
        let entry = &entries[i];
        proof {
            assert(all.take(i + 1).drop_last() =~= all.take(i as int));
            assert(all.take(i + 1).last() == entry@);
        }
        if entry.in_destination {
            let ghost before = out.deep_view();
            out.push(entry.name.clone());
            assert(out.deep_view() =~= before.push(entry@.name));
        }
        i += 1;
    }
    assert(all.take(entries.len() as int) =~= all);
    out
}

fn next_of(from: String, entries: Vec<MoveEntry>, next: usize) -> (turn: MoveTurn)
    requires
        next <= entries.len(),
    ensures
        turn@ == take_next(from@, move_entries(entries@).skip(next as int)),
{
    let ghost pending = move_entries(entries@).skip(next as int);
    if next >= entries.len() {
        assert(pending.len() == 0);
        return MoveTurn::Ask {
            run: MoveRun { from, stage: Stage::RemovedSource, entries, next },
            request: MoveRequest::RemoveSource,
        };
    }
    assert(pending[0] == entries@[next as int]@);
    if entries[next].kind == EntryKind::Unknown {
        let mut message = chars_of("Failed to read file type for ");
        extend(&mut message, &chars_of(from.as_str()));
        message.push('/');
        extend(&mut message, &chars_of(entries[next].name.as_str()));
        assert(message@ =~= "Failed to read file type for "@ + from@ + seq!['/'] + pending[0].name);
        return failed(string_of(&message));
    }
    let name = entries[next].name.clone();
    MoveTurn::Ask {
        run: MoveRun { from, stage: Stage::Renamed, entries, next },
        request: MoveRequest::Rename { name },
    }
}

impl MoveRun {
    #[verifier::type_invariant]
    spec fn well_formed(self) -> bool {
        &&& self.next <= self.entries.len()
        &&& at_entry(self.stage) ==> self.next < self.entries.len()
    }

    /// Starts a move. `from` is the source as messages are to show it. The
    /// caller does what the request says and hands what comes of it to
    /// `advance`.
    pub fn begin(from: &str) -> (out: (MoveRun, MoveRequest))
        ensures
            out.0@ == initial(from@),
            out.1@ == MoveRequestView::Probe,
    {
        let run = MoveRun {
            from: string_of(&chars_of(from)),
            stage: Stage::Probed,
            entries: Vec::new(),
            next: 0,
        };
        assert(run@.pending =~= Seq::empty());
        (run, MoveRequest::Probe)
    }

    /// Takes what came of the last request and says what comes next.
    pub fn advance(self, event: MoveEvent) -> (turn: MoveTurn)
        ensures
            turn@ == react(self@, event),
    {
        proof {
            use_type_invariant(&self);
        }
        let ghost pending = self@.pending;
        let MoveRun { from, stage, entries, next } = self;
        match stage {
            Stage::RemovedSource => MoveTurn::Finished { outcome: Ok(()) },
            Stage::Probed => match event {
                MoveEvent::Failed { message } => failed(message),
                MoveEvent::Probed { exists, is_dir } => {
                    if !exists {
                        MoveTurn::Ask {
                            run: MoveRun {
                                from,
                                stage: Stage::Created { moving: false },
                                entries,
                                next,
                            },
                            request: MoveRequest::CreateDestination,
                        }
                    } else if !is_dir {
                        MoveTurn::Finished {
                            outcome: Err(
                                SyncError::NotADirectory { place: Place::MoveSource, path: from },
                            ),
                        }
                    } else {
                        MoveTurn::Ask {
                            run: MoveRun { from, stage: Stage::Surveyed, entries, next },
                            request: MoveRequest::Survey,
                        }
                    }
                },
                _ => out_of_turn(from.as_str()),
            },
            Stage::Created { moving } => match event {
                MoveEvent::Failed { message } => failed(message),
                MoveEvent::Created => {
                    if moving {
                        next_of(from, entries, next)
                    } else {
                        MoveTurn::Finished { outcome: Ok(()) }
                    }
                },
                _ => out_of_turn(from.as_str()),
            },
            Stage::Surveyed => match event {
                MoveEvent::Failed { message } => failed(message),
                MoveEvent::Surveyed { from: source, to, to_exists, to_is_dir, listing } => {
                    if is_same_path(&source, &to) {
                        return MoveTurn::Finished { outcome: Ok(()) };
                    }
                    match prevent_nested_move(&source, &to) {
                        Err(e) => {
                            return MoveTurn::Finished { outcome: Err(e) };
                        },
                        Ok(()) => {},
                    }
                    if to_exists && !to_is_dir {
                        return MoveTurn::Finished {
                            outcome: Err(
                                SyncError::NotADirectory {
                                    place: Place::Destination,
                                    path: to.path,
                                },
                            ),
                        };
                    }
                    match listing {
                        Err(message) => failed(message),
                        Ok(found) => {
                            let shared = conflicts_of(&found);
                            if shared.len() > 0 {
                                return MoveTurn::Finished {
                                    outcome: Err(
                                        SyncError::DestinationConflict {
                                            names: sorted_names(shared),
                                        },
                                    ),
                                };
                            }
                            assert(move_entries(found@).skip(0) =~= move_entries(found@));
                            MoveTurn::Ask {
                                run: MoveRun {
                                    from,
                                    stage: Stage::Created { moving: true },
                                    entries: found,
                                    next: 0,
                                },
                                request: MoveRequest::CreateDestination,
                            }
                        },
                    }
                },
                _ => out_of_turn(from.as_str()),
            },
            Stage::Renamed => match event {
                MoveEvent::Failed { message } => failed(message),
                MoveEvent::Renamed => {
                    assert(move_entries(entries@).skip(next + 1) =~= pending.drop_first());
                    next_of(from, entries, next + 1)
                },
                MoveEvent::RenameRefused => {
                    assert(pending[0] == entries@[next as int]@);
                    let name = entries[next].name.clone();
                    if entries[next].kind == EntryKind::Dir {
                        MoveTurn::Ask {
                            run: MoveRun { from, stage: Stage::CopiedTree, entries, next },
                            request: MoveRequest::CopyTree { name },
                        }
                    } else {
                        MoveTurn::Ask {
                            run: MoveRun { from, stage: Stage::CopiedFile, entries, next },
                            request: MoveRequest::CopyFile { name },
                        }
                    }
                },
                _ => out_of_turn(from.as_str()),
            },
            Stage::CopiedTree => match event {
                MoveEvent::Failed { message } => failed(message),
                MoveEvent::Copied => {
                    assert(pending[0] == entries@[next as int]@);
                    let name = entries[next].name.clone();
                    MoveTurn::Ask {
                        run: MoveRun { from, stage: Stage::RemovedEntry, entries, next },
                        request: MoveRequest::RemoveDir { name },
                    }
                },
                _ => out_of_turn(from.as_str()),
            },
            Stage::CopiedFile => match event {
                MoveEvent::Failed { message } => failed(message),
                MoveEvent::Copied => {
                    assert(pending[0] == entries@[next as int]@);
                    let name = entries[next].name.clone();
                    MoveTurn::Ask {
                        run: MoveRun { from, stage: Stage::RemovedEntry, entries, next },
                        request: MoveRequest::RemoveFile { name },
                    }
                },
                _ => out_of_turn(from.as_str()),
            },
            Stage::RemovedEntry => match event {
                MoveEvent::Failed { message } => failed(message),
                MoveEvent::Removed => {
                    assert(move_entries(entries@).skip(next + 1) =~= pending.drop_first());
                    next_of(from, entries, next + 1)
                },
                _ => out_of_turn(from.as_str()),
            },
        }
    }
}

/// The run after the source was found to be a directory: the survey is
/// under way, and nothing has been touched.
pub open spec fn surveying(from: Seq<char>) -> MoveView {
    MoveView { from, stage: Stage::Surveyed, pending: Seq::empty() }
}

/// A move of a directory begins with a look at the source and a survey:
/// up to the answer to the survey it has asked for nothing that changes
/// the disk. So where the survey ends the run, source and destination are
/// as they were.
pub proof fn lemma_move_surveys_first(from: Seq<char>)
    ensures
        react(initial(from), MoveEvent::Probed { exists: true, is_dir: true }) == (
        MoveTurnView::Ask { run: surveying(from), request: MoveRequestView::Survey }),
{
}

/// Where there is no source, the destination is created and the move is
/// over: nothing else is asked for.
pub proof fn lemma_move_of_nothing_makes_the_destination(from: Seq<char>, is_dir: bool)
    ensures
        react(initial(from), MoveEvent::Probed { exists: false, is_dir }) matches MoveTurnView::Ask {
            run,
            request,
        } && request == MoveRequestView::CreateDestination && react(run, MoveEvent::Created) == (
        MoveTurnView::Finished { outcome: Ok(()) }),
{
}

/// The destination is created only where the survey lets the move go on:
/// a survey after which the run asks for anything has found source and
/// destination to be two places, the destination not inside the source
/// and not a thing that is no directory, and no entry of the source on
/// an entry of the destination; and what the run then asks for is the
/// destination, with every entry of the source still to be moved.
pub proof fn lemma_destination_is_created_after_the_survey(
    shown: Seq<char>,
    from: Resolved,
    to: Resolved,
    to_exists: bool,
    to_is_dir: bool,
    listing: Result<Vec<MoveEntry>, String>,
)
    ensures
        react(
            surveying(shown),
            MoveEvent::Surveyed { from, to, to_exists, to_is_dir, listing },
        ) matches MoveTurnView::Ask { run, request } ==> request
            == MoveRequestView::CreateDestination && !one_location(from, to) && !nested_in(
            from,
            to,
        ) && (to_exists ==> to_is_dir) && listing is Ok && conflicts(
            move_entries(listing->Ok_0@),
        ).len() == 0 && run.pending == move_entries(listing->Ok_0@) && run.stage == (
        Stage::Created { moving: true }),
{
}

/// A move whose destination lies inside its source ends at the survey with
/// `NestedDestination`, whether the destination exists yet or not: nothing
/// is created, moved or removed.
pub proof fn lemma_nested_destination_is_refused(
    shown: Seq<char>,
    from: Resolved,
    to: Resolved,
    to_exists: bool,
    to_is_dir: bool,
    listing: Result<Vec<MoveEntry>, String>,
)
    requires
        nested_in(from, to),
        !one_location(from, to),
    ensures
        react(
            surveying(shown),
            MoveEvent::Surveyed { from, to, to_exists, to_is_dir, listing },
        ) == (MoveTurnView::Finished {
            outcome: Err(ErrorView::NestedDestination { from: from.path@, to: to.path@ }),
        }),
{
}

proof fn lemma_conflicts_hold(entries: Seq<MoveEntryView>, i: int)
    requires
        0 <= i < entries.len(),
        entries[i].in_destination,
    ensures
        conflicts(entries).contains(entries[i].name),
    decreases entries.len(),
{
    let head = entries.drop_last();
    if i == entries.len() - 1 {
        let c = conflicts(head).push(entries.last().name);
        assert(c[c.len() - 1] == entries[i].name);
    } else {
        lemma_conflicts_hold(head, i);
        let k = choose|k: int| 0 <= k < conflicts(head).len() && conflicts(head)[k] == head[i].name;
        assert(conflicts(entries)[k] == entries[i].name);
    }
}

/// A move between two directories that hold an entry of the same name ends
/// at the survey with `DestinationConflict`, and the error lists that
/// name: nothing is created, moved or removed.
pub proof fn lemma_shared_entry_is_refused(
    shown: Seq<char>,
    from: Resolved,
    to: Resolved,
    entries: Vec<MoveEntry>,
    i: int,
)
    requires
        !one_location(from, to),
        !nested_in(from, to),
        0 <= i < entries@.len(),
        entries@[i].in_destination,
    ensures
        react(
            surveying(shown),
            MoveEvent::Surveyed {
                from,
                to,
                to_exists: true,
                to_is_dir: true,
                listing: Ok(entries),
            },
        ) == (MoveTurnView::Finished {
            outcome: Err(
                ErrorView::DestinationConflict {
                    names: ordered(conflicts(move_entries(entries@))),
                },
            ),
        }),
        ordered(conflicts(move_entries(entries@))).contains(entries@[i].name@),
{
    let all = move_entries(entries@);
    lemma_conflicts_hold(all, i);
    let shared = conflicts(all);
    crate::order::lemma_ordered_holds_the_same(shared, all[i].name);
}

} // verus!
