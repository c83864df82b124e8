//! Copying a directory tree, symbolic links followed, cycles refused.
//!
//! The walk decides; its caller touches the disk. The caller does what the
//! walk asks for, hands back what came of it, and is told what to do next,
//! until the walk says that it is finished.
//!
//! A place in the tree is written as the list of names that lead to it from
//! the root of the copy; the same list leads from the source root to what is
//! copied and from the destination root to the copy.
//!
//! Every directory that the walk is inside of is known by its canonical
//! path. A directory whose canonical path is already among them is not
//! entered: the walk ends with `CycleDetected`. Leaving a directory frees
//! its path, so that a link to a directory beside it can still be followed.

use crate::error::{ErrorView, Place, SyncError};
use crate::listing::{entry_views, DirEntry, EntryKind, EntryView};
use crate::order::{copy_names, str_eq};
use crate::text::{chars_of, extend, string_of};
use vstd::prelude::*;

verus! {

/// What the caller is to do next. `rel` leads from either root to the place
/// that is meant.
#[derive(Debug)]
pub enum CopyRequest {
    /// Look at the source: does it exist, is it a directory once links are
    /// followed, what is its canonical path? Answer with `Probed`.
    Probe { rel: Vec<String> },
    /// Remove the destination if it is there, create it as an empty
    /// directory, and read the source directory. Answer with `Listed`.
    Open { rel: Vec<String> },
    /// Copy the file's bytes from source to destination. Answer with
    /// `Copied`.
    CopyFile { rel: Vec<String> },
    /// Find what the symbolic link at the source leads to. Answer with
    /// `Resolved`.
    Resolve { rel: Vec<String> },
}

/// What came of the last request.
#[derive(Debug)]
pub enum CopyEvent {
    Probed { exists: bool, is_dir: bool, canonical: String },
    Listed { entries: Vec<DirEntry> },
    Copied,
    /// The kind of thing a link leads to: `Dir`, `File`, or anything else.
    Resolved { kind: EntryKind },
    /// The file system refused; `message` tells what and why.
    Failed { message: String },
}

/// What a `CopyRequest` holds, as plain values.
pub enum RequestView {
    Probe { rel: Seq<Seq<char>> },
    Open { rel: Seq<Seq<char>> },
    CopyFile { rel: Seq<Seq<char>> },
    Resolve { rel: Seq<Seq<char>> },
}

impl View for CopyRequest {
    type V = RequestView;

    open spec fn view(&self) -> RequestView {
        match self {
            CopyRequest::Probe { rel } => RequestView::Probe { rel: rel.deep_view() },
            CopyRequest::Open { rel } => RequestView::Open { rel: rel.deep_view() },
            CopyRequest::CopyFile { rel } => RequestView::CopyFile { rel: rel.deep_view() },
            CopyRequest::Resolve { rel } => RequestView::Resolve { rel: rel.deep_view() },
        }
    }
}

/// What a `CopyEvent` holds, as plain values.
pub enum EventView {
    Probed { exists: bool, is_dir: bool, canonical: Seq<char> },
    Listed { entries: Seq<EntryView> },
    Copied,
    Resolved { kind: EntryKind },
    Failed { message: Seq<char> },
}

impl View for CopyEvent {
    type V = EventView;

    open spec fn view(&self) -> EventView {
        match self {
            CopyEvent::Probed { exists, is_dir, canonical } => EventView::Probed {
                exists: *exists,
                is_dir: *is_dir,
                canonical: canonical@,
            },
            CopyEvent::Listed { entries } => EventView::Listed { entries: entry_views(entries@) },
            CopyEvent::Copied => EventView::Copied,
            CopyEvent::Resolved { kind } => EventView::Resolved { kind: *kind },
            CopyEvent::Failed { message } => EventView::Failed { message: message@ },
        }
    }
}

/// The event that the walk waits for.
#[derive(Clone, Copy, Debug, PartialEq, Eq, Structural)]
pub enum Awaiting {
    Probed,
    Listed,
    Copied,
    Resolved,
}

/// A directory that the walk is inside of.
pub struct FrameView {
    /// The place of the directory.
    pub rel: Seq<Seq<char>>,
    /// Its canonical path.
    pub canonical: Seq<char>,
    /// Its entries that are still to be copied.
    pub pending: Seq<EntryView>,
}

/// The state of a walk.
pub struct WalkView {
    /// The source root as it is shown in messages.
    pub source: Seq<char>,
    /// The directories that the walk is inside of, outermost first.
    pub frames: Seq<FrameView>,
    /// The place that the last request was about.
    pub target: Seq<Seq<char>>,
    /// The canonical path of `target`, once it has been probed.
    pub canonical: Seq<char>,
    pub awaiting: Awaiting,
}

/// What a walk makes of an event.
pub enum TurnView {
    Ask { walk: WalkView, request: RequestView },
    Finished { outcome: Result<(), ErrorView> },
}

/// How a place is shown in a message: the source root, then the names that
/// lead to the place, with `/` before each.
pub open spec fn shown(source: Seq<char>, rel: Seq<Seq<char>>) -> Seq<char>
    decreases rel.len(),
{
    if rel.len() == 0 {
        source
    } else {
        shown(source, rel.drop_last()) + seq!['/'] + rel.last()
    }
}

/// Whether one of `frames` has the canonical path `canonical`.
pub open spec fn is_inside(frames: Seq<FrameView>, canonical: Seq<char>) -> bool {
    exists|i: int| 0 <= i < frames.len() && (#[trigger] frames[i]).canonical == canonical
}

/// `frames` with the first pending entry of the innermost one taken off.
pub open spec fn consumed(frames: Seq<FrameView>) -> Seq<FrameView>
    recommends
        frames.len() > 0,
        frames.last().pending.len() > 0,
{
    frames.drop_last().push(
        FrameView {
            rel: frames.last().rel,
            canonical: frames.last().canonical,
            pending: frames.last().pending.drop_first(),
        },
    )
}

/// What the walk does once it is done with one place: it takes up the next
/// entry of the innermost directory, leaving each directory that has none
/// left, and is finished when it has left the root.
///
/// A directory is probed before it is entered, a file is copied, a link is
/// resolved first; an entry that is none of these is passed over, and one
/// whose kind could not be read ends the walk.
pub open spec fn proceed(source: Seq<char>, frames: Seq<FrameView>) -> TurnView
    decreases frames.len(), (if frames.len() > 0 {
        frames.last().pending.len()
    } else {
        0
    }),
{
    if frames.len() == 0 {
        TurnView::Finished { outcome: Ok(()) }
    } else if frames.last().pending.len() == 0 {
        proceed(source, frames.drop_last())
    } else {
        let entry = frames.last().pending[0];
        let target = frames.last().rel.push(entry.name);
        let rest = consumed(frames);
        let walk = |awaiting: Awaiting|
            WalkView { source, frames: rest, target, canonical: Seq::empty(), awaiting };
        match entry.kind {
            EntryKind::Dir => TurnView::Ask {
                walk: walk(Awaiting::Probed),
                request: RequestView::Probe { rel: target },
            },
            EntryKind::File => TurnView::Ask {
                walk: walk(Awaiting::Copied),
                request: RequestView::CopyFile { rel: target },
            },
            EntryKind::Symlink => TurnView::Ask {
                walk: walk(Awaiting::Resolved),
                request: RequestView::Resolve { rel: target },
            },
            EntryKind::Other => proceed(source, rest),
            EntryKind::Unknown => TurnView::Finished {
                outcome: Err(
                    ErrorView::IoFailure {
                        message: "Failed to read file type: "@ + shown(source, target),
                    },
                ),
            },
        }
    }
}

/// What the walk makes of `event`.
///
/// A refusal of the file system ends the walk with that failure, and so
/// does an event that the walk did not wait for. A source that is missing,
/// is no directory, or is a directory that the walk is inside of already,
/// ends it with the error of that name.
pub open spec fn react(walk: WalkView, event: EventView) -> TurnView {
    match (walk.awaiting, event) {
        (_, EventView::Failed { message }) => TurnView::Finished {
            outcome: Err(ErrorView::IoFailure { message }),
        },
        (Awaiting::Probed, EventView::Probed { exists, is_dir, canonical }) => if !exists {
            TurnView::Finished {
                outcome: Err(ErrorView::NotFound { path: shown(walk.source, walk.target) }),
            }
        } else if !is_dir {
            TurnView::Finished {
                outcome: Err(
                    ErrorView::NotADirectory {
                        place: Place::CopySource,
                        path: shown(walk.source, walk.target),
                    },
                ),
            }
        } else if is_inside(walk.frames, canonical) {
            TurnView::Finished {
                outcome: Err(ErrorView::CycleDetected { path: shown(walk.source, walk.target) }),
            }
        } else {
            TurnView::Ask {
                walk: WalkView {
                    source: walk.source,
                    frames: walk.frames,
                    target: walk.target,
                    canonical,
                    awaiting: Awaiting::Listed,
                },
                request: RequestView::Open { rel: walk.target },
            }
        },
        (Awaiting::Listed, EventView::Listed { entries }) => proceed(
            walk.source,
            walk.frames.push(
                FrameView { rel: walk.target, canonical: walk.canonical, pending: entries },
            ),
        ),
        (Awaiting::Copied, EventView::Copied) => proceed(walk.source, walk.frames),
        (Awaiting::Resolved, EventView::Resolved { kind }) => match kind {
            EntryKind::Dir => TurnView::Ask {
                walk: WalkView {
                    source: walk.source,
                    frames: walk.frames,
                    target: walk.target,
                    canonical: Seq::empty(),
                    awaiting: Awaiting::Probed,
                },
                request: RequestView::Probe { rel: walk.target },
            },
            EntryKind::File => TurnView::Ask {
                walk: WalkView {
                    source: walk.source,
                    frames: walk.frames,
                    target: walk.target,
                    canonical: Seq::empty(),
                    awaiting: Awaiting::Copied,
                },
                request: RequestView::CopyFile { rel: walk.target },
            },
            _ => proceed(walk.source, walk.frames),
        },
        _ => TurnView::Finished {
            outcome: Err(
                ErrorView::IoFailure { message: "Event out of turn at "@ + shown(
                    walk.source,
                    walk.target,
                ) },
            ),
        },
    }
}

/// The walk at its start, about to probe the source root.
pub open spec fn initial(source: Seq<char>) -> WalkView {
    WalkView {
        source,
        frames: Seq::empty(),
        target: Seq::empty(),
        canonical: Seq::empty(),
        awaiting: Awaiting::Probed,
    }
}

struct Frame {
    rel: Vec<String>,
    canonical: String,
    entries: Vec<DirEntry>,
    next: usize,
}

impl Frame {
    spec fn fits(self) -> bool {
        self.next <= self.entries.len()
    }

    spec fn shape(self) -> FrameView {
        FrameView {
            rel: self.rel.deep_view(),
            canonical: self.canonical@,
            pending: entry_views(self.entries@).skip(self.next as int),
        }
    }
}

spec fn shapes(frames: Seq<Frame>) -> Seq<FrameView> {
    Seq::new(frames.len(), |i: int| frames[i].shape())
}

spec fn all_fit(frames: Seq<Frame>) -> bool {
    forall|i: int| 0 <= i < frames.len() ==> (#[trigger] frames[i]).fits()
}

/// A copy in progress.
pub struct CopyWalk {
    source: String,
    frames: Vec<Frame>,
    target: Vec<String>,
    canonical: String,
    awaiting: Awaiting,
}

/// What a walk asks of its caller after an event was handed in.
pub enum CopyTurn {
    /// Do what `request` says and hand what comes of it to `walk`.
    Ask { walk: CopyWalk, request: CopyRequest },
    /// The copy is over, with `outcome`.
    Finished { outcome: Result<(), SyncError> },
}

impl View for CopyWalk {
    type V = WalkView;

    closed spec fn view(&self) -> WalkView {
        WalkView {
            source: self.source@,
            frames: shapes(self.frames@),
            target: self.target.deep_view(),
            canonical: self.canonical@,
            awaiting: self.awaiting,
        }
    }
}

impl View for CopyTurn {
    type V = TurnView;

    open spec fn view(&self) -> TurnView {
        match self {
            CopyTurn::Ask { walk, request } => TurnView::Ask { walk: walk@, request: request@ },
            CopyTurn::Finished { outcome } => TurnView::Finished {
                outcome: match outcome {
                    Ok(()) => Ok(()),
                    Err(e) => Err(e@),
                },
            },
        }
    }
}

fn shown_of(source: &str, rel: &Vec<String>) -> (out: Vec<char>)
    ensures
        out@ == shown(source@, rel.deep_view()),
{
    let mut out = chars_of(source);
    let mut i: usize = 0;
    assert(rel.deep_view().take(0) =~= Seq::empty());
    while i < rel.len()
        invariant
            i <= rel.len(),
            out@ == shown(source@, rel.deep_view().take(i as int)),
        decreases rel.len() - i,
    {
        proof {
            let next = rel.deep_view().take(i + 1);
            assert(next.drop_last() =~= rel.deep_view().take(i as int));
            assert(next.last() == rel@[i as int]@);
        }
        out.push('/');
        extend(&mut out, &chars_of(rel[i].as_str()));
        i += 1;
    }
    assert(rel.deep_view().take(rel.len() as int) =~= rel.deep_view());
    out
}

fn inside(frames: &Vec<Frame>, canonical: &str) -> (r: bool)
    ensures
        r == is_inside(shapes(frames@), canonical@),
{
    let mut i: usize = 0;
    while i < frames.len()
        invariant
            i <= frames.len(),
            forall|k: int| 0 <= k < i ==> (#[trigger] shapes(frames@)[k]).canonical != canonical@,
        decreases frames.len() - i,
    {
        if str_eq(frames[i].canonical.as_str(), canonical) {
            assert(shapes(frames@)[i as int].canonical == canonical@);
            return true;
        }
        i += 1;
    }
    false
}

fn take_up(source: String, stack: Vec<Frame>) -> (turn: CopyTurn)
    requires
        all_fit(stack@),
    ensures
        turn@ == proceed(source@, shapes(stack@)),
{
    let mut frames = stack;
    loop
        invariant
            all_fit(frames@),
            proceed(source@, shapes(stack@)) == proceed(source@, shapes(frames@)),
        decreases
                frames.len(),
                (if frames.len() > 0 {
                    frames@.last().entries.len() - frames@.last().next
                } else {
                    0
                }),
    {
        let ghost before = shapes(frames@);
        match frames.pop() {
            None => {
                assert(before.len() == 0);
                return CopyTurn::Finished { outcome: Ok(()) };
            },
            Some(top) => {
                assert(top.fits());
                assert(shapes(frames@) =~= before.drop_last());
                assert(before.last() == top.shape());
                if top.next >= top.entries.len() {
                    assert(top.shape().pending.len() == 0);
                } else {
                    let entry = &top.entries[top.next];
                    let kind = entry.kind;
                    let mut target = copy_names(&top.rel);
                    target.push(entry.name.clone());
                    let rest = Frame {
                        rel: top.rel,
                        canonical: top.canonical,
                        entries: top.entries,
                        next: top.next + 1,
                    };
                    proof {
                        let pending = top.shape().pending;
                        assert(pending.len() > 0);
                        assert(pending[0] == entry@);
                        assert(rest.shape().pending =~= pending.drop_first());
                        assert(target.deep_view() =~= top.shape().rel.push(entry@.name));
                    }
                    frames.push(rest);
                    proof {
                        assert(shapes(frames@) =~= consumed(before));
                        assert(all_fit(frames@)) by {
                            assert forall|i: int| 0 <= i < frames.len() implies (
                            #[trigger] frames@[i]).fits() by {
                                if i == frames.len() - 1 {
                                }
                            }
                        }
                    }
                    match kind {
                        EntryKind::Dir => {
                            let request = CopyRequest::Probe { rel: copy_names(&target) };
                            return CopyTurn::Ask {
                                walk: CopyWalk {
                                    source,
                                    frames,
                                    target,
                                    canonical: String::new(),
                                    awaiting: Awaiting::Probed,
                                },
                                request,
                            };
                        },
                        EntryKind::File => {
                            let request = CopyRequest::CopyFile { rel: copy_names(&target) };
                            return CopyTurn::Ask {
                                walk: CopyWalk {
                                    source,
                                    frames,
                                    target,
                                    canonical: String::new(),
                                    awaiting: Awaiting::Copied,
                                },
                                request,
                            };
                        },
                        EntryKind::Symlink => {
                            let request = CopyRequest::Resolve { rel: copy_names(&target) };
                            return CopyTurn::Ask {
                                walk: CopyWalk {
                                    source,
                                    frames,
                                    target,
                                    canonical: String::new(),
                                    awaiting: Awaiting::Resolved,
                                },
                                request,
                            };
                        },
                        EntryKind::Other => {},
                        EntryKind::Unknown => {
                            let mut message = chars_of("Failed to read file type: ");
                            extend(&mut message, &shown_of(source.as_str(), &target));
                            return CopyTurn::Finished {
                                outcome: Err(SyncError::IoFailure { message: string_of(&message) }),
                            };
                        },
                    }
                }
            },
        }
    }
}

impl CopyWalk {
    #[verifier::type_invariant]
    spec fn well_formed(self) -> bool {
        all_fit(self.frames@)
    }

    /// Starts a copy. `source` is the source root as messages are to show
    /// it. The caller does what the request says and hands what comes of it
    /// to `advance`.
    pub fn begin(source: &str) -> (out: (CopyWalk, CopyRequest))
        ensures
            out.0@ == initial(source@),
            out.1@ == (RequestView::Probe { rel: Seq::empty() }),
    {
        let walk = CopyWalk {
            source: string_of(&chars_of(source)),
            frames: Vec::new(),
            target: Vec::new(),
            canonical: String::new(),
            awaiting: Awaiting::Probed,
        };
        let rel: Vec<String> = Vec::new();
        proof {
            assert(shapes(walk.frames@) =~= Seq::empty());
            assert(walk.target.deep_view() =~= Seq::empty());
            assert(rel.deep_view() =~= Seq::empty());
        }
        (walk, CopyRequest::Probe { rel })
    }

    /// Takes what came of the last request and says what comes next.
    pub fn advance(self, event: CopyEvent) -> (turn: CopyTurn)
        ensures
            turn@ == react(self@, event@),
    {
        proof {
            use_type_invariant(&self);
        }
        let ghost was = self@;
        let CopyWalk { source, frames, target, canonical, awaiting } = self;
        match event {
            CopyEvent::Failed { message } => CopyTurn::Finished {
                outcome: Err(SyncError::IoFailure { message }),
            },
            CopyEvent::Probed { exists, is_dir, canonical: found } => {
                if awaiting != Awaiting::Probed {
                    return out_of_turn(source, target);
                }
                if !exists {
                    return CopyTurn::Finished {
                        outcome: Err(
                            SyncError::NotFound {
                                path: string_of(&shown_of(source.as_str(), &target)),
                            },
                        ),
                    };
                }
                if !is_dir {
                    return CopyTurn::Finished {
                        outcome: Err(
                            SyncError::NotADirectory {
                                place: Place::CopySource,
                                path: string_of(&shown_of(source.as_str(), &target)),
                            },
                        ),
                    };
                }
                if inside(&frames, found.as_str()) {
                    return CopyTurn::Finished {
                        outcome: Err(
                            SyncError::CycleDetected {
                                path: string_of(&shown_of(source.as_str(), &target)),
                            },
                        ),
                    };
                }
                let request = CopyRequest::Open { rel: copy_names(&target) };
                CopyTurn::Ask {
                    walk: CopyWalk {
                        source,
                        frames,
                        target,
                        canonical: found,
                        awaiting: Awaiting::Listed,
                    },
                    request,
                }
            },
            CopyEvent::Listed { entries } => {
                if awaiting != Awaiting::Listed {
                    return out_of_turn(source, target);
                }
                let ghost before = shapes(frames@);
                let mut frames = frames;
                let frame = Frame { rel: target, canonical, entries, next: 0 };
                proof {
                    assert(frame.shape().pending =~= entry_views(entries@));
                }
                frames.push(frame);
                proof {
                    assert(shapes(frames@) =~= before.push(frame.shape()));
                    assert(all_fit(frames@));
                }
                take_up(source, frames)
            },
            CopyEvent::Copied => {
                if awaiting != Awaiting::Copied {
                    return out_of_turn(source, target);
                }
                take_up(source, frames)
            },
            CopyEvent::Resolved { kind } => {
                if awaiting != Awaiting::Resolved {
                    return out_of_turn(source, target);
                }
                match kind {
                    EntryKind::Dir => {
                        let request = CopyRequest::Probe { rel: copy_names(&target) };
                        CopyTurn::Ask {
                            walk: CopyWalk {
                                source,
                                frames,
                                target,
                                canonical: String::new(),
                                awaiting: Awaiting::Probed,
                            },
                            request,
                        }
                    },
                    EntryKind::File => {
                        let request = CopyRequest::CopyFile { rel: copy_names(&target) };
                        CopyTurn::Ask {
                            walk: CopyWalk {
                                source,
                                frames,
                                target,
                                canonical: String::new(),
                                awaiting: Awaiting::Copied,
                            },
                            request,
                        }
                    },
                    _ => take_up(source, frames),
                }
            },
        }
    }
}

fn out_of_turn(source: String, target: Vec<String>) -> (turn: CopyTurn)
    ensures
        turn@ == (TurnView::Finished {
            outcome: Err(
                ErrorView::IoFailure {
                    message: "Event out of turn at "@ + shown(source@, target.deep_view()),
                },
            ),
        }),
{
    let mut message = chars_of("Event out of turn at ");
    extend(&mut message, &shown_of(source.as_str(), &target));
    CopyTurn::Finished { outcome: Err(SyncError::IoFailure { message: string_of(&message) }) }
}

/// No two of the directories that the walk is inside of have the same
/// canonical path, and neither has the directory that is about to be
/// opened.
pub open spec fn never_twice(walk: WalkView) -> bool {
    &&& forall|i: int, j: int|
        0 <= i < j < walk.frames.len() ==> (#[trigger] walk.frames[i]).canonical != (
        #[trigger] walk.frames[j]).canonical
    &&& walk.awaiting == Awaiting::Listed ==> !is_inside(walk.frames, walk.canonical)
}

proof fn lemma_proceed_keeps_order(source: Seq<char>, frames: Seq<FrameView>)
    ensures
        proceed(source, frames) matches TurnView::Ask { walk, request } ==> walk.awaiting
            != Awaiting::Listed && walk.frames.len() <= frames.len() && forall|i: int|
            0 <= i < walk.frames.len() ==> (#[trigger] walk.frames[i]).canonical
                == frames[i].canonical,
    decreases frames.len(), (if frames.len() > 0 {
        frames.last().pending.len()
    } else {
        0
    }),
{
    if frames.len() == 0 {
    } else if frames.last().pending.len() == 0 {
        lemma_proceed_keeps_order(source, frames.drop_last());
    } else {
        let rest = consumed(frames);
        if frames.last().pending[0].kind == EntryKind::Other {
            lemma_proceed_keeps_order(source, rest);
        }
    }
}

/// The walk is never inside the same directory twice: what holds of a walk
/// in this respect holds of the walk that follows it, whatever the event.
pub proof fn lemma_walk_is_never_inside_twice(walk: WalkView, event: EventView)
    requires
        never_twice(walk),
    ensures
        never_twice(initial(walk.source)),
        react(walk, event) matches TurnView::Ask { walk: next, request } ==> never_twice(next),
{
    match (walk.awaiting, event) {
        (Awaiting::Listed, EventView::Listed { entries }) => {
            let frames = walk.frames.push(
                FrameView { rel: walk.target, canonical: walk.canonical, pending: entries },
            );
            lemma_proceed_keeps_order(walk.source, frames);
        },
        (Awaiting::Copied, EventView::Copied) => {
            lemma_proceed_keeps_order(walk.source, walk.frames);
        },
        (Awaiting::Resolved, EventView::Resolved { kind }) => {
            lemma_proceed_keeps_order(walk.source, walk.frames);
        },
        _ => {},
    }
}

/// A symbolic link that leads back to a directory which the walk is inside
/// of ends the copy with `CycleDetected`: the link is resolved, the
/// directory it leads to is probed, and its canonical path is found among
/// those of the directories that are open.
pub proof fn lemma_link_to_ancestor_is_refused(walk: WalkView, canonical: Seq<char>)
    requires
        walk.awaiting == Awaiting::Resolved,
        is_inside(walk.frames, canonical),
    ensures
        react(walk, EventView::Resolved { kind: EntryKind::Dir }) matches TurnView::Ask {
            walk: next,
            request,
        } && request == (RequestView::Probe { rel: walk.target }) && react(
            next,
            EventView::Probed { exists: true, is_dir: true, canonical },
        ) == (TurnView::Finished {
            outcome: Err(ErrorView::CycleDetected { path: shown(walk.source, walk.target) }),
        }),
{
}

} // verus!
