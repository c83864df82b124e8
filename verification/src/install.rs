//! Where a skill is installed from, and under what name.

use crate::lines::{lines_of, split_lines};
use crate::error::{ErrorView, SyncError};
use crate::models::{Skill, SkillView};
use crate::names::{safe_name, safe_skill_dir_name};
use crate::text::{
    chars_of, contains, count_in, count_of, ends_with, extend, has_infix, has_prefix, has_suffix,
    is_blank, lowercase_of, matches_at, slice, starts_with, string_of, strip_end, strip_end_of,
    texts, to_ascii_lowercase, trim, trim_of, CharClass,
};
use vstd::prelude::*;

verus! {

/// The address that `input` stands for.
///
/// The input is trimmed and loses its trailing slashes. An address with a
/// scheme stays as it is; one that begins with the host gets the scheme put
/// before it; `owner/repo`, a text with one slash and no space, gets scheme
/// and host; anything else stays as it is.
pub open spec fn normalized_url(input: Seq<char>) -> Seq<char> {
    let t = strip_end(trim(input), CharClass::Exactly('/'));
    if starts_with(t, "http://"@) || starts_with(t, "https://"@) {
        t
    } else if starts_with(t, "github.com/"@) {
        "https://"@ + t
    } else if count_of(t, '/') == 1 && count_of(t, ' ') == 0 {
        "https://github.com/"@ + t
    } else {
        t
    }
}

/// Brings an address a user typed into the form that is fetched.
pub fn normalize_install_url(input: &str) -> (out: String)
    ensures
        out@ == normalized_url(input@),
{
    let t = strip_end_of(&trim_of(&chars_of(input)), CharClass::Exactly('/'));
    if has_prefix(&t, &chars_of("http://")) || has_prefix(&t, &chars_of("https://")) {
        return string_of(&t);
    }
    if has_prefix(&t, &chars_of("github.com/")) {
        let mut out = chars_of("https://");
        extend(&mut out, &t);
        return string_of(&out);
    }
    if count_in(&t, '/') == 1 && count_in(&t, ' ') == 0 {
        let mut out = chars_of("https://github.com/");
        extend(&mut out, &t);
        return string_of(&out);
    }
    string_of(&t)
}

/// Whether `url` names a zip archive: it ends in `.zip`, or holds `.zip?`,
/// in any mix of upper and lower case.
pub open spec fn names_archive(url: Seq<char>) -> bool {
    ends_with(to_ascii_lowercase(url), ".zip"@) || contains(to_ascii_lowercase(url), ".zip?"@)
}

/// Whether `url` is fetched as a zip archive rather than cloned.
pub fn is_archive_url(url: &str) -> (r: bool)
    ensures
        r == names_archive(url@),
{
    let lower = lowercase_of(&chars_of(url));
    has_suffix(&lower, &chars_of(".zip")) || has_infix(&lower, &chars_of(".zip?"))
}

/// The address that is cloned for `url`: `url` itself where it ends in
/// `.git`, else `url` with `.git` after it.
pub open spec fn clone_address(url: Seq<char>) -> Seq<char> {
    if ends_with(url, ".git"@) {
        url
    } else {
        url + ".git"@
    }
}

/// The address to clone for `url`.
pub fn clone_url(url: &str) -> (out: String)
    ensures
        out@ == clone_address(url@),
{
    let mut chars = chars_of(url);
    if !has_suffix(&chars, &chars_of(".git")) {
        extend(&mut chars, &chars_of(".git"));
    }
    string_of(&chars)
}

/// `s` without the copies of `pat` at its end.
pub open spec fn without_suffixes(s: Seq<char>, pat: Seq<char>) -> Seq<char>
    decreases s.len(),
{
    if pat.len() > 0 && ends_with(s, pat) {
        without_suffixes(s.take(s.len() - pat.len()), pat)
    } else {
        s
    }
}

/// `s` without the copies of `pat` at its head.
pub open spec fn without_prefixes(s: Seq<char>, pat: Seq<char>) -> Seq<char>
    decreases s.len(),
{
    if pat.len() > 0 && starts_with(s, pat) {
        without_prefixes(s.skip(pat.len() as int), pat)
    } else {
        s
    }
}

/// The index just after the last `/` of `s` before `to`, or 0.
pub open spec fn last_segment_start(s: Seq<char>, to: int) -> int
    decreases to,
{
    if 0 < to <= s.len() && s[to - 1] != '/' {
        last_segment_start(s, to - 1)
    } else {
        to
    }
}

/// The name a skill gets from its address alone: what follows the last
/// slash, without `.git` and then without `.zip` at its end.
pub open spec fn name_from_url(url: Seq<char>) -> Seq<char> {
    without_suffixes(
        without_suffixes(url.skip(last_segment_start(url, url.len() as int)), ".git"@),
        ".zip"@,
    )
}

fn without_suffixes_of(v: &Vec<char>, pat: &Vec<char>) -> (out: Vec<char>)
    requires
        pat.len() > 0,
    ensures
        out@ == without_suffixes(v@, pat@),
{
    let mut end: usize = v.len();
    assert(v@.take(end as int) =~= v@);
    while end >= pat.len() && matches_at(v, pat, end - pat.len())
        invariant
            end <= v.len(),
            pat.len() > 0,
            without_suffixes(v@, pat@) == without_suffixes(v@.take(end as int), pat@),
        decreases end,
    {
        proof {
            let s = v@.take(end as int);
            assert(s.subrange(s.len() - pat.len(), s.len() as int) =~= v@.subrange(
                end - pat.len(),
                end as int,
            ));
            assert(ends_with(s, pat@));
            assert(s.take(s.len() - pat.len()) =~= v@.take(end - pat.len()));
        }
        end -= pat.len();
    }
    proof {
        let s = v@.take(end as int);
        if end >= pat.len() {
            assert(s.subrange(s.len() - pat.len(), s.len() as int) =~= v@.subrange(
                end - pat.len(),
                end as int,
            ));
        }
        assert(!ends_with(s, pat@));
    }
    slice(v, 0, end)
}

fn without_prefixes_of(v: &Vec<char>, pat: &Vec<char>) -> (out: Vec<char>)
    requires
        pat.len() > 0,
    ensures
        out@ == without_prefixes(v@, pat@),
{
    let mut from: usize = 0;
    assert(v@.skip(0) =~= v@);
    while matches_at(v, pat, from)
        invariant
            from <= v.len(),
            pat.len() > 0,
            without_prefixes(v@, pat@) == without_prefixes(v@.skip(from as int), pat@),
        decreases v.len() - from,
    {
        proof {
            let s = v@.skip(from as int);
            assert(s.subrange(0, pat.len() as int) =~= v@.subrange(
                from as int,
                from + pat.len(),
            ));
            assert(starts_with(s, pat@));
            assert(s.skip(pat.len() as int) =~= v@.skip(from + pat.len()));
        }
        from += pat.len();
    }
    proof {
        let s = v@.skip(from as int);
        if from + pat.len() <= v.len() {
            assert(s.subrange(0, pat.len() as int) =~= v@.subrange(
                from as int,
                from + pat.len(),
            ));
        }
        assert(!starts_with(s, pat@));
    }
    slice(v, from, v.len())
}

/// The name a skill gets from its address alone.
pub fn fallback_name(url: &str) -> (out: String)
    ensures
        out@ == name_from_url(url@),
{
    let chars = chars_of(url);
    let mut from: usize = chars.len();
    while from > 0 && chars[from - 1] != '/'
        invariant
            from <= chars.len(),
            last_segment_start(chars@, chars@.len() as int) == last_segment_start(
                chars@,
                from as int,
            ),
        decreases from,
    {
        from -= 1;
    }
    let last = slice(&chars, from, chars.len());
    assert(last@ =~= chars@.skip(from as int));
    proof {
        reveal_strlit(".git");
        reveal_strlit(".zip");
    }
    let bare = without_suffixes_of(&last, &chars_of(".git"));
    string_of(&without_suffixes_of(&bare, &chars_of(".zip")))
}

/// The heading of the first line at or after `from` that, trimmed, begins
/// with `# `: that line without the `# ` at its head, trimmed.
pub open spec fn first_heading(lines: Seq<Seq<char>>, from: int) -> Option<Seq<char>>
    decreases lines.len() - from,
{
    if from < 0 || from >= lines.len() {
        None
    } else if starts_with(trim(lines[from]), "# "@) {
        Some(trim(without_prefixes(trim(lines[from]), "# "@)))
    } else {
        first_heading(lines, from + 1)
    }
}

/// The text of the first file that could be read.
pub open spec fn first_readable(texts: Seq<Option<Seq<char>>>, from: int) -> Option<Seq<char>>
    decreases texts.len() - from,
{
    if from < 0 || from >= texts.len() {
        None
    } else if texts[from] is Some {
        texts[from]
    } else {
        first_readable(texts, from + 1)
    }
}

/// The name of a skill, given the texts of the files that may tell it:
/// the first heading of the first file that could be read, or `fallback`
/// where no file could be read or the file has no heading.
pub open spec fn name_from_texts(texts: Seq<Option<Seq<char>>>, fallback: Seq<char>) -> Seq<char> {
    match first_readable(texts, 0) {
        Some(text) => match first_heading(lines_of(text), 0) {
            Some(heading) => heading,
            None => fallback,
        },
        None => fallback,
    }
}

/// The files that may tell a skill's name, in the order in which they are
/// tried.
pub fn name_sources() -> (out: Vec<String>)
    ensures
        out.deep_view() == seq!["SKILL.md"@, "skill.md"@, "README.md"@, "README.MD"@, "readme.md"@],
{
    let mut out: Vec<String> = Vec::new();
    out.push(string_of(&chars_of("SKILL.md")));
    out.push(string_of(&chars_of("skill.md")));
    out.push(string_of(&chars_of("README.md")));
    out.push(string_of(&chars_of("README.MD")));
    out.push(string_of(&chars_of("readme.md")));
    assert(out.deep_view() =~= seq![
        "SKILL.md"@,
        "skill.md"@,
        "README.md"@,
        "README.MD"@,
        "readme.md"@,
    ]);
    out
}

/// The name of a freshly fetched skill. `contents` holds, for each file of
/// `name_sources`, its text where the file exists and could be read.
pub fn parse_name_from_dir(contents: &Vec<Option<String>>, fallback_name: &str) -> (out: String)
    ensures
        out@ == name_from_texts(contents.deep_view(), fallback_name@),
{
    let ghost all = contents.deep_view();
    let mut i: usize = 0;
    while i < contents.len()
        invariant
            i <= contents.len(),
            all == contents.deep_view(),
            first_readable(all, 0) == first_readable(all, i as int),
        decreases contents.len() - i,
    {
        match &contents[i] {
            Some(text) => {
                assert(all[i as int] == Some(text@));
                let lines = split_lines(&chars_of(text.as_str()));
                let mark = chars_of("# ");
                proof {
                    reveal_strlit("# ");
                }
                let ghost rows = texts(lines@);
                let mut k: usize = 0;
                while k < lines.len()
                    invariant
                        k <= lines.len(),
                        rows == texts(lines@),
                        mark@ == "# "@,
                        mark@.len() == 2,
                        all == contents.deep_view(),
                        first_readable(all, 0) == Some(text@),
                        rows == lines_of(text@),
                        first_heading(rows, 0) == first_heading(rows, k as int),
                    decreases lines.len() - k,
                {
                    let t = trim_of(&lines[k]);
                    if has_prefix(&t, &mark) {
                        return string_of(&trim_of(&without_prefixes_of(&t, &mark)));
                    }
                    k += 1;
                }
                return string_of(&chars_of(fallback_name));
            },
            None => {
                assert(all[i as int] is None);
            },
        }
        i += 1;
    }
    string_of(&chars_of(fallback_name))
}

/// What is handed to the installer: the address to fetch and the name of
/// the skill's directory.
#[derive(Debug)]
pub struct InstallRequest {
    pub url: String,
    pub name: String,
}

/// The arguments with which the package runner installs a skill for every
/// agent of the user, without asking.
pub open spec fn runner_arguments(url: Seq<char>, name: Seq<char>) -> Seq<Seq<char>> {
    seq!["skills"@, "add"@, url, "--skill"@, name, "-g"@, "-y"@]
}

impl InstallRequest {
    /// The arguments for the package runner.
    pub fn arguments(&self) -> (out: Vec<String>)
        ensures
            out.deep_view() == runner_arguments(self.url@, self.name@),
    {
        let mut out: Vec<String> = Vec::new();
        out.push(string_of(&chars_of("skills")));
        out.push(string_of(&chars_of("add")));
        out.push(self.url.clone());
        out.push(string_of(&chars_of("--skill")));
        out.push(self.name.clone());
        out.push(string_of(&chars_of("-g")));
        out.push(string_of(&chars_of("-y")));
        assert(out.deep_view() =~= runner_arguments(self.url@, self.name@));
        out
    }
}

/// What installing the skill `skill_name` from `repo_url` hands to the
/// installer. A blank skill name is refused.
pub fn install_request(repo_url: &str, skill_name: &str) -> (out: Result<
    InstallRequest,
    SyncError,
>)
    ensures
        is_blank(skill_name@) <==> out is Err,
        out matches Err(e) ==> e is EmptySkillName,
        out matches Ok(request) ==> request.url@ == normalized_url(repo_url@) && request.name@
            == safe_name(skill_name@),
{
    if trim_of(&chars_of(skill_name)).len() == 0 {
        return Err(SyncError::EmptySkillName);
    }
    Ok(
        InstallRequest {
            url: normalize_install_url(repo_url),
            name: safe_skill_dir_name(skill_name),
        },
    )
}

/// What installing the skill `skill_name` afresh from `repo_url` hands to
/// the installer. A blank address is refused, and so is a name whose
/// directory name is blank.
pub fn reinstall_request(repo_url: &str, skill_name: &str) -> (out: Result<
    InstallRequest,
    SyncError,
>)
    ensures
        match out {
            Err(e) => if is_blank(repo_url@) {
                e is EmptyRepoUrl
            } else {
                e is EmptySkillName && is_blank(safe_name(skill_name@))
            },
            Ok(request) => !is_blank(repo_url@) && !is_blank(
                safe_name(skill_name@),
            ) && request.url@ == normalized_url(repo_url@) && request.name@
                == safe_name(skill_name@),
        },
{
    if trim_of(&chars_of(repo_url)).len() == 0 {
        return Err(SyncError::EmptyRepoUrl);
    }
    let name = safe_skill_dir_name(skill_name);
    if trim_of(&chars_of(name.as_str())).len() == 0 {
        return Err(SyncError::EmptySkillName);
    }
    Ok(InstallRequest { url: normalize_install_url(repo_url), name })
}

/// The index of the first place at or after `from` at which the installed
/// skill was found, or the number of places.
pub open spec fn first_found(found: Seq<bool>, from: int) -> int
    decreases found.len() - from,
{
    if 0 <= from < found.len() && !found[from] {
        first_found(found, from + 1)
    } else {
        from
    }
}

/// Which of the places where an installed skill is looked for is taken:
/// the first at which a directory was found. `found` says of each place
/// whether there is one. Where there is none anywhere, the skill `name` is
/// reported missing.
pub fn installed_at(found: &Vec<bool>, name: &str) -> (out: Result<usize, SyncError>)
    ensures
        match out {
            Ok(at) => at == first_found(found@, 0) && at < found.len(),
            Err(e) => first_found(found@, 0) >= found.len() && e@
                == (ErrorView::InstalledSkillMissing { name: name@ }),
        },
{
    let mut i: usize = 0;
    while i < found.len()
        invariant
            i <= found.len(),
            first_found(found@, 0) == first_found(found@, i as int),
        decreases found.len() - i,
    {
        if found[i] {
            return Ok(i);
        }
        i += 1;
    }
    Err(SyncError::InstalledSkillMissing { name: string_of(&chars_of(name)) })
}

/// The directory of an unpacked archive that holds the skill: the one
/// directory at its top where there is exactly one, else (`None`) the
/// place it was unpacked to.
pub fn archive_root(top_dirs: &Vec<String>) -> (out: Option<String>)
    ensures
        out.deep_view() == if top_dirs.len() == 1 {
            Some(top_dirs@[0]@)
        } else {
            None
        },
{
    if top_dirs.len() == 1 {
        Some(top_dirs[0].clone())
    } else {
        None
    }
}

/// The marker file written for a skill that is known by name only.
pub fn bootstrap_marker(skill_name: &str) -> (out: String)
    ensures
        out@ == "# "@ + skill_name@ + seq!['\n'],
{
    let mut out = chars_of("# ");
    extend(&mut out, &chars_of(skill_name));
    out.push('\n');
    assert(out@ =~= "# "@ + skill_name@ + seq!['\n']);
    string_of(&out)
}

/// The record of a skill that was just installed under the directory name
/// `name`, from `repo_url`, at the time `now`.
pub fn installed_skill(
    id: String,
    name: String,
    repo_url: String,
    enabled_agents: Vec<String>,
    now: &str,
) -> (out: Skill)
    ensures
        out@ == (SkillView {
            id: id@,
            name: name@,
            source_url: Some(repo_url@),
            enabled_agents: enabled_agents.deep_view(),
            last_sync: Some(now@),
            last_update: Some(now@),
        }),
{
    Skill {
        id,
        name,
        source_url: Some(repo_url),
        enabled_agents,
        last_sync: Some(string_of(&chars_of(now))),
        last_update: Some(string_of(&chars_of(now))),
    }
}

} // verus!
