//! What reading a directory gives.

use crate::text::{chars_of, eq_ignore_ascii_case, lowercase_of, same_text};
use vstd::prelude::*;

verus! {

/// What kind of thing a directory entry is, as the entry itself tells,
/// without following a symbolic link.
#[derive(Clone, Copy, Debug, PartialEq, Eq, Structural)]
pub enum EntryKind {
    File,
    Dir,
    Symlink,
    /// Neither file, directory nor symbolic link.
    Other,
    /// The kind could not be read.
    Unknown,
}

/// One entry of a directory.
#[derive(Debug)]
pub struct DirEntry {
    pub name: String,
    pub kind: EntryKind,
    /// Whether the entry is a directory once symbolic links are followed.
    pub is_dir: bool,
}

/// What a `DirEntry` holds, as plain values.
pub struct EntryView {
    pub name: Seq<char>,
    pub kind: EntryKind,
    pub is_dir: bool,
}

impl View for DirEntry {
    type V = EntryView;

    open spec fn view(&self) -> EntryView {
        EntryView { name: self.name@, kind: self.kind, is_dir: self.is_dir }
    }
}

/// The views of a listing.
pub open spec fn entry_views(entries: Seq<DirEntry>) -> Seq<EntryView> {
    Seq::new(entries.len(), |i: int| entries[i]@)
}

/// A name that is empty or begins with a dot: such entries are passed over.
pub open spec fn is_hidden(name: Seq<char>) -> bool {
    name.len() == 0 || name[0] == '.'
}

/// Whether `name` is empty or begins with a dot.
pub fn hidden(name: &str) -> (r: bool)
    ensures
        r == is_hidden(name@),
{
    let chars = chars_of(name);
    chars.len() == 0 || chars[0] == '.'
}

/// Whether `entry` is a marker file: a regular file called `SKILL.md`, in
/// any mix of upper and lower case.
pub open spec fn is_marker(entry: EntryView) -> bool {
    entry.kind == EntryKind::File && eq_ignore_ascii_case(entry.name, "skill.md"@)
}

/// Whether `entry` is a marker file.
pub fn marker(entry: &DirEntry) -> (r: bool)
    ensures
        r == is_marker(entry@),
{
    if entry.kind != EntryKind::File {
        return false;
    }
    let name = lowercase_of(&chars_of(entry.name.as_str()));
    let wanted = lowercase_of(&chars_of("skill.md"));
    same_text(&name, &wanted)
}

} // verus!
