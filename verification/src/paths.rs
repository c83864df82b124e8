//! Locations on disk, written as text.
//!
//! A location is the text of a path. Joining and comparing such texts is
//! left to `std::path`, so that a location means here what it means to the
//! file system calls that later receive it.

use crate::error::SyncError;
use crate::models::{AgentInfo, AgentView};
use crate::names::{safe_name, safe_skill_dir_name};
use crate::text::{
    chars_of, has_prefix, is_blank, same_text, slice, starts_with, string_of, trim, trim_of,
};
use std::path::Path;
use vstd::prelude::*;

verus! {

/// The text of the path that `Path::join` makes of `base` and `rest`.
pub uninterp spec fn joined_path(base: Seq<char>, rest: Seq<char>) -> Seq<char>;

/// Whether `==` holds of the two texts taken as `Path`s.
pub uninterp spec fn same_location(a: Seq<char>, b: Seq<char>) -> bool;

/// Whether `Path::starts_with` holds of `path` and `base`.
pub uninterp spec fn location_within(path: Seq<char>, base: Seq<char>) -> bool;

/// `Path::join` on two texts. Both are valid UTF-8, and so is the joined
/// path, which is handed back as text. Nothing more is claimed than that
/// the result is the one that `Path::join` gives for these two texts on the
/// platform the library is built for.
#[verifier::external_body]
pub(crate) fn join_path(base: &str, rest: &str) -> (out: String)
    ensures
        out@ == joined_path(base@, rest@),
{
    Path::new(base).join(rest).to_string_lossy().into_owned()
}

/// `==` on two `Path`s made of the texts. The result is named, not
/// described.
#[verifier::external_body]
pub(crate) fn path_eq(a: &str, b: &str) -> (r: bool)
    ensures
        r == same_location(a@, b@),
{
    Path::new(a) == Path::new(b)
}

/// `Path::starts_with` on two `Path`s made of the texts. The result is
/// named, not described.
#[verifier::external_body]
pub(crate) fn path_starts_with(path: &str, base: &str) -> (r: bool)
    ensures
        r == location_within(path@, base@),
{
    Path::new(path).starts_with(Path::new(base))
}

/// The view of a home directory that may not be known.
pub open spec fn home_view(home: Option<&str>) -> Option<Seq<char>> {
    match home {
        Some(h) => Some(h@),
        None => None,
    }
}

/// The location that `path` stands for, given the user's home directory.
///
/// `path` is trimmed. With a home directory known, `~` alone is that
/// directory and `~/rest` or `~\rest` is `rest` joined to it. Anything else,
/// and everything while no home directory is known, stands for itself.
pub open spec fn expanded(path: Seq<char>, home: Option<Seq<char>>) -> Seq<char> {
    let t = trim(path);
    match home {
        None => t,
        Some(h) => if t == "~"@ {
            h
        } else if starts_with(t, "~/"@) || starts_with(t, "~\\"@) {
            joined_path(h, t.skip(2))
        } else {
            t
        },
    }
}

/// Expands a leading `~` in `path` to the home directory `home`.
pub fn expand_tilde(path: &str, home: Option<&str>) -> (out: String)
    ensures
        out@ == expanded(path@, home_view(home)),
{
    let t = trim_of(&chars_of(path));
    match home {
        None => string_of(&t),
        Some(h) => {
            proof {
                reveal_strlit("~/");
                reveal_strlit("~\\");
            }
            if same_text(&t, &chars_of("~")) {
                string_of(&chars_of(h))
            } else if has_prefix(&t, &chars_of("~/")) || has_prefix(&t, &chars_of("~\\")) {
                let rest = slice(&t, 2, t.len());
                assert(rest@ =~= t@.skip(2));
                join_path(h, string_of(&rest).as_str())
            } else {
                string_of(&t)
            }
        },
    }
}

/// The store's root directory for the configured `storage_path`: an error
/// where the path is blank, else the path expanded.
pub fn manager_store_root(storage_path: &str, home: Option<&str>) -> (out: Result<
    String,
    SyncError,
>)
    ensures
        is_blank(storage_path@) <==> out is Err,
        out matches Err(e) ==> e is EmptyStoragePath,
        out matches Ok(root) ==> root@ == expanded(trim(storage_path@), home_view(home)),
{
    let t = trim_of(&chars_of(storage_path));
    if t.len() == 0 {
        return Err(SyncError::EmptyStoragePath);
    }
    Ok(expand_tilde(string_of(&t).as_str(), home))
}

/// The directories of an agent, in the order in which they are served: the
/// current one, then the default one unless it is the same location. A blank
/// path names no directory.
pub open spec fn roots_of(agent: AgentView, home: Option<Seq<char>>) -> Seq<Seq<char>> {
    let current = expanded(trim(agent.current_path), home);
    let default = expanded(trim(agent.default_path), home);
    if is_blank(agent.current_path) {
        if is_blank(agent.default_path) {
            Seq::empty()
        } else {
            seq![default]
        }
    } else if is_blank(agent.default_path) || same_location(current, default) {
        seq![current]
    } else {
        seq![current, default]
    }
}

/// The directories of `agent`.
pub fn agent_roots(agent: &AgentInfo, home: Option<&str>) -> (out: Vec<String>)
    ensures
        out.deep_view() == roots_of(agent@, home_view(home)),
{
    let mut out: Vec<String> = Vec::new();
    let current = trim_of(&chars_of(agent.current_path.as_str()));
    if current.len() > 0 {
        out.push(expand_tilde(string_of(&current).as_str(), home));
    }
    let default = trim_of(&chars_of(agent.default_path.as_str()));
    if default.len() > 0 {
        let p = expand_tilde(string_of(&default).as_str(), home);
        if out.len() == 0 || !path_eq(out[0].as_str(), p.as_str()) {
            out.push(p);
        }
    }
    assert(out.deep_view() =~= roots_of(agent@, home_view(home)));
    out
}

/// Where a skill named `skill_name` lies under the current directory of
/// `agent`.
pub fn skill_dest_for_agent(agent: &AgentInfo, skill_name: &str, home: Option<&str>) -> (out:
    String)
    ensures
        out@ == joined_path(
            expanded(agent@.current_path, home_view(home)),
            safe_name(skill_name@),
        ),
{
    let root = expand_tilde(agent.current_path.as_str(), home);
    join_path(root.as_str(), safe_skill_dir_name(skill_name).as_str())
}

/// Where an installer may have left the skill directory `skill_dir_name`,
/// most likely place first.
pub fn candidate_post_install_sources(skill_dir_name: &str, home: Option<&str>) -> (out: Vec<
    String,
>)
    ensures
        out.deep_view() == seq![
            joined_path(
                expanded("~/.agents/skills"@, home_view(home)),
                skill_dir_name@,
            ),
        ],
{
    let root = expand_tilde("~/.agents/skills", home);
    let mut out: Vec<String> = Vec::new();
    out.push(join_path(root.as_str(), skill_dir_name));
    assert(out.deep_view() =~= seq![out@[0]@]);
    out
}

/// A path together with what resolving its symbolic links gave, where that
/// could be done.
pub struct Resolved {
    pub path: String,
    pub canonical: Option<String>,
}

impl Resolved {
    /// The resolved form where there is one, else the path as written.
    pub open spec fn settled(self) -> Seq<char> {
        match self.canonical {
            Some(c) => c@,
            None => self.path@,
        }
    }
}

/// Whether `a` and `b` are one location: equal as written, or both
/// resolvable and equal once resolved.
pub open spec fn one_location(a: Resolved, b: Resolved) -> bool {
    same_location(a.path@, b.path@) || (a.canonical is Some && b.canonical is Some
        && same_location(a.canonical->0@, b.canonical->0@))
}

/// Whether `to` lies inside `from`, each taken in its settled form, without
/// being `from` itself.
pub open spec fn nested_in(from: Resolved, to: Resolved) -> bool {
    location_within(to.settled(), from.settled()) && !same_location(from.settled(), to.settled())
}

/// Whether two paths lead to the same place.
pub fn is_same_path(a: &Resolved, b: &Resolved) -> (r: bool)
    ensures
        r == one_location(*a, *b),
{
    if path_eq(a.path.as_str(), b.path.as_str()) {
        return true;
    }
    match (&a.canonical, &b.canonical) {
        (Some(x), Some(y)) => path_eq(x.as_str(), y.as_str()),
        _ => false,
    }
}

/// Refuses a move whose destination lies inside its source.
pub fn prevent_nested_move(from: &Resolved, to: &Resolved) -> (out: Result<(), SyncError>)
    ensures
        nested_in(*from, *to) <==> out is Err,
        out matches Err(e) ==> e matches SyncError::NestedDestination { from: f, to: t } && f@
            == from.path@ && t@ == to.path@,
{
    let source = match &from.canonical {
        Some(c) => c.as_str(),
        None => from.path.as_str(),
    };
    let target = match &to.canonical {
        Some(c) => c.as_str(),
        None => to.path.as_str(),
    };
    if path_starts_with(target, source) && !path_eq(source, target) {
        return Err(
            SyncError::NestedDestination { from: from.path.clone(), to: to.path.clone() },
        );
    }
    Ok(())
}

} // verus!
