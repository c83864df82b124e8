//! What can go wrong, and how it is told.

use crate::lines::{join, join_of};
use crate::text::{chars_of, extend, string_of, texts};
use vstd::prelude::*;

verus! {

/// Which of the places of an operation is meant.
#[derive(Clone, Copy, Debug, PartialEq, Eq, Structural)]
pub enum Place {
    /// The source of a copy.
    CopySource,
    /// The source of a move.
    MoveSource,
    /// The destination of a move.
    Destination,
}

impl Place {
    /// How a message begins that tells that the place is no directory.
    pub open spec fn complaint(self) -> Seq<char> {
        match self {
            Place::CopySource => "Source is not a dir: "@,
            Place::MoveSource => "Source is not a directory: "@,
            Place::Destination => "Destination is not a directory: "@,
        }
    }
}

/// The ways an operation of this library fails.
#[derive(Debug)]
pub enum SyncError {
    /// The configured store path is blank.
    EmptyStoragePath,
    /// A source that was to be copied does not exist.
    NotFound { path: String },
    /// A place that has to be a directory is something else.
    NotADirectory { place: Place, path: String },
    /// The skill has no directory in the store.
    SkillNotInStore { name: String, path: String },
    /// The file system refused an operation; `message` tells which and why.
    IoFailure { message: String },
    /// A directory came up again while it was still being copied.
    CycleDetected { path: String },
    /// Source and destination of a move both hold entries of these names.
    DestinationConflict { names: Vec<String> },
    /// The destination of a move lies inside its source.
    NestedDestination { from: String, to: String },
    /// No address was given to install from.
    EmptyRepoUrl,
    /// No skill was named.
    EmptySkillName,
    /// The installer ran, but left the skill in none of the places where it
    /// was looked for.
    InstalledSkillMissing { name: String },
}

/// What a `SyncError` holds, as plain values.
pub enum ErrorView {
    EmptyStoragePath,
    NotFound { path: Seq<char> },
    NotADirectory { place: Place, path: Seq<char> },
    SkillNotInStore { name: Seq<char>, path: Seq<char> },
    IoFailure { message: Seq<char> },
    CycleDetected { path: Seq<char> },
    DestinationConflict { names: Seq<Seq<char>> },
    NestedDestination { from: Seq<char>, to: Seq<char> },
    EmptyRepoUrl,
    EmptySkillName,
    InstalledSkillMissing { name: Seq<char> },
}

impl View for SyncError {
    type V = ErrorView;

    open spec fn view(&self) -> ErrorView {
        match self {
            SyncError::EmptyStoragePath => ErrorView::EmptyStoragePath,
            SyncError::NotFound { path } => ErrorView::NotFound { path: path@ },
            SyncError::NotADirectory { place, path } => ErrorView::NotADirectory {
                place: *place,
                path: path@,
            },
            SyncError::SkillNotInStore { name, path } => ErrorView::SkillNotInStore {
                name: name@,
                path: path@,
            },
            SyncError::IoFailure { message } => ErrorView::IoFailure { message: message@ },
            SyncError::CycleDetected { path } => ErrorView::CycleDetected { path: path@ },
            SyncError::DestinationConflict { names } => ErrorView::DestinationConflict {
                names: names.deep_view(),
            },
            SyncError::NestedDestination { from, to } => ErrorView::NestedDestination {
                from: from@,
                to: to@,
            },
            SyncError::EmptyRepoUrl => ErrorView::EmptyRepoUrl,
            SyncError::EmptySkillName => ErrorView::EmptySkillName,
            SyncError::InstalledSkillMissing { name } => ErrorView::InstalledSkillMissing {
                name: name@,
            },
        }
    }
}

impl SyncError {
    /// The text of `message`.
    pub open spec fn message_text(self) -> Seq<char> {
        match self {
            SyncError::EmptyStoragePath => "storagePath is empty"@,
            SyncError::NotFound { path } => "Source dir does not exist: "@ + path@,
            SyncError::NotADirectory { place, path } => place.complaint() + path@,
            SyncError::SkillNotInStore { name, path } => "Skill store not found for name="@ + name@
                + " at "@ + path@,
            SyncError::IoFailure { message } => message@,
            SyncError::CycleDetected { path } => "Symlink cycle detected at "@ + path@,
            SyncError::DestinationConflict { names } =>
                "Destination already contains conflicting entries: "@ + join(
                names.deep_view(),
                ", "@,
            ),
            SyncError::NestedDestination { from, to } =>
                "Destination is inside source directory (from: "@ + from@ + ", to: "@ + to@
                + ")"@,
            SyncError::EmptyRepoUrl => "repoUrl is empty"@,
            SyncError::EmptySkillName => "skillName is empty"@,
            SyncError::InstalledSkillMissing { name } =>
                "Installed skill directory not found under known locations (expected ~/.agents/skills/"@
                + name@ + ")"@,
        }
    }

    /// The failure in words.
    pub fn message(&self) -> (out: String)
        ensures
            out@ == self.message_text(),
    {
        let mut out: Vec<char> = Vec::new();
        match self {
            SyncError::EmptyStoragePath => {
                extend(&mut out, &chars_of("storagePath is empty"));
            },
            SyncError::NotFound { path } => {
                extend(&mut out, &chars_of("Source dir does not exist: "));
                extend(&mut out, &chars_of(path.as_str()));
            },
            SyncError::NotADirectory { place, path } => {
                match place {
                    Place::CopySource => extend(&mut out, &chars_of("Source is not a dir: ")),
                    Place::MoveSource => extend(
                        &mut out,
                        &chars_of("Source is not a directory: "),
                    ),
                    Place::Destination => extend(
                        &mut out,
                        &chars_of("Destination is not a directory: "),
                    ),
                }
                extend(&mut out, &chars_of(path.as_str()));
            },
            SyncError::SkillNotInStore { name, path } => {
                extend(&mut out, &chars_of("Skill store not found for name="));
                extend(&mut out, &chars_of(name.as_str()));
                extend(&mut out, &chars_of(" at "));
                extend(&mut out, &chars_of(path.as_str()));
            },
            SyncError::IoFailure { message } => {
                extend(&mut out, &chars_of(message.as_str()));
            },
            SyncError::CycleDetected { path } => {
                extend(&mut out, &chars_of("Symlink cycle detected at "));
                extend(&mut out, &chars_of(path.as_str()));
            },
            SyncError::DestinationConflict { names } => {
                extend(&mut out, &chars_of("Destination already contains conflicting entries: "));
                extend(&mut out, &comma_separated_of(names));
            },
            SyncError::NestedDestination { from, to } => {
                extend(&mut out, &chars_of("Destination is inside source directory (from: "));
                extend(&mut out, &chars_of(from.as_str()));
                extend(&mut out, &chars_of(", to: "));
                extend(&mut out, &chars_of(to.as_str()));
                extend(&mut out, &chars_of(")"));
            },
            SyncError::EmptyRepoUrl => {
                extend(&mut out, &chars_of("repoUrl is empty"));
            },
            SyncError::EmptySkillName => {
                extend(&mut out, &chars_of("skillName is empty"));
            },
            SyncError::InstalledSkillMissing { name } => {
                extend(
                    &mut out,
                    &chars_of(
                        "Installed skill directory not found under known locations (expected ~/.agents/skills/",
                    ),
                );
                extend(&mut out, &chars_of(name.as_str()));
                extend(&mut out, &chars_of(")"));
            },
        }
        assert(out@ =~= self.message_text());
        string_of(&out)
    }
}

fn comma_separated_of(names: &Vec<String>) -> (out: Vec<char>)
    ensures
        out@ == join(names.deep_view(), ", "@),
{
    let mut parts: Vec<Vec<char>> = Vec::new();
    let mut i: usize = 0;
    while i < names.len()
        invariant
            i <= names.len(),
            parts.len() == i,
            forall|k: int| 0 <= k < i ==> parts@[k]@ == names@[k]@,
        decreases names.len() - i,
    {
        parts.push(chars_of(names[i].as_str()));
        i += 1;
    }
    assert(texts(parts@) =~= names.deep_view());
    join_of(&parts, &chars_of(", "))
}

} // verus!
