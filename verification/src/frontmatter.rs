//! The metadata block at the head of a skill's marker file.
//!
//! A marker file may open with a block of `key: value` lines between two
//! lines that hold `---` and nothing else.

use crate::lines::{join, join_of, lines_of, split_lines};
use crate::text::{
    chars_of, extend, find_from, has_prefix, index_of, is_blank, lowercase_of, replace,
    replace_all, same_text, scan_forward, skip_forward, slice, starts_with, string_of,
    strip_start, strip_start_of, texts, to_ascii_lowercase, trim, trim_of, CharClass,
};
use vstd::prelude::*;

verus! {

/// The byte-order mark that may precede a file's text.
pub open spec fn byte_order_mark() -> char {
    '\u{feff}'
}

/// `content` without the byte-order marks at its head.
pub open spec fn without_mark(content: Seq<char>) -> Seq<char> {
    strip_start(content, CharClass::Exactly(byte_order_mark()))
}

/// Whether `content`, byte-order marks aside, opens with the line `---`.
pub open spec fn has_metadata_block(content: Seq<char>) -> bool {
    starts_with(without_mark(content), "---\n"@) || starts_with(
        without_mark(content),
        "---\r\n"@,
    )
}

/// `value` as a single-quoted scalar: every `'` doubled, the whole between
/// two `'`.
pub open spec fn single_quoted(value: Seq<char>) -> Seq<char> {
    seq!['\''] + replace(value, seq!['\''], seq!['\'', '\'']) + seq!['\'']
}

/// The name written into a new metadata block: `name` trimmed, or `skill`
/// where that leaves nothing.
pub open spec fn block_name(name: Seq<char>) -> Seq<char> {
    if is_blank(name) {
        "skill"@
    } else {
        trim(name)
    }
}

/// `content` behind a metadata block that holds the one key `name`.
pub open spec fn with_metadata_block(content: Seq<char>, name: Seq<char>) -> Seq<char> {
    "---\nname: "@ + single_quoted(block_name(name)) + "\n---\n\n"@ + content
}

fn starts_block(chars: &Vec<char>) -> (r: bool)
    ensures
        r == has_metadata_block(chars@),
{
    let body = strip_start_of(chars, CharClass::Exactly('\u{feff}'));
    let unix = chars_of("---\n");
    let dos = chars_of("---\r\n");
    has_prefix(&body, &unix) || has_prefix(&body, &dos)
}

/// Whether a marker file's text opens with a metadata block.
pub fn skill_md_starts_with_yaml_frontmatter(content: &str) -> (r: bool)
    ensures
        r == has_metadata_block(content@),
{
    let chars = chars_of(content);
    starts_block(&chars)
}

fn single_quoted_of(value: &Vec<char>) -> (out: Vec<char>)
    ensures
        out@ == single_quoted(value@),
{
    let quote: Vec<char> = vec!['\''];
    let doubled: Vec<char> = vec!['\'', '\''];
    assert(quote@ =~= seq!['\'']);
    assert(doubled@ =~= seq!['\'', '\'']);
    let inner = replace_all(value, &quote, &doubled);
    let mut out: Vec<char> = vec!['\''];
    extend(&mut out, &inner);
    out.push('\'');
    assert(out@ =~= single_quoted(value@));
    out
}

/// `value` as a single-quoted scalar.
pub fn yaml_single_quote(value: &str) -> (out: String)
    ensures
        out@ == single_quoted(value@),
{
    let chars = chars_of(value);
    let quoted = single_quoted_of(&chars);
    string_of(&quoted)
}

/// The text to write back to a marker file so that it opens with a metadata
/// block: `None` where `content` has one already, else `content` behind a
/// new block that names the skill.
pub fn ensure_skill_md_has_yaml_frontmatter(content: &str, skill_name: &str) -> (out: Option<
    String,
>)
    ensures
        has_metadata_block(content@) ==> out is None,
        !has_metadata_block(content@) ==> out is Some && out->0@ == with_metadata_block(
            content@,
            skill_name@,
        ),
{
    let chars = chars_of(content);
    if starts_block(&chars) {
        return None;
    }
    let name = trim_of(&chars_of(skill_name));
    let shown = if name.len() == 0 {
        chars_of("skill")
    } else {
        name
    };
    let mut out = chars_of("---\nname: ");
    extend(&mut out, &single_quoted_of(&shown));
    extend(&mut out, &chars_of("\n---\n\n"));
    extend(&mut out, &chars);
    Some(string_of(&out))
}

/// The index of the first line at or after `from` that is `---`, or the
/// number of lines.
pub open spec fn closing_line(lines: Seq<Seq<char>>, from: int) -> int
    decreases lines.len() - from,
{
    if 0 <= from < lines.len() && lines[from] != "---"@ {
        closing_line(lines, from + 1)
    } else {
        from
    }
}

/// The lines inside the metadata block of a text whose lines are `lines`:
/// those after the first line and before the next line that is `---`, or
/// all that follow the first line where no such line comes.
pub open spec fn block_lines(lines: Seq<Seq<char>>) -> Seq<Seq<char>> {
    lines.subrange(1, closing_line(lines, 1))
}

/// The key of a `key: value` line: what stands before the first colon,
/// trimmed, in lower case.
pub open spec fn key_of(line: Seq<char>) -> Seq<char> {
    let t = strip_start(line, CharClass::Whitespace);
    to_ascii_lowercase(trim(t.take(index_of(t, ':', 0))))
}

/// The value of a `key: value` line: what stands after the first colon,
/// trimmed; nothing where the line has no colon.
pub open spec fn value_of(line: Seq<char>) -> Seq<char> {
    let t = strip_start(line, CharClass::Whitespace);
    let colon = index_of(t, ':', 0);
    if colon < t.len() {
        trim(t.skip(colon + 1))
    } else {
        Seq::empty()
    }
}

/// What a scalar written on the key's own line stands for.
///
/// A value between two `'` or between two `"` loses them, and one that
/// stood between `'` has each `''` turned into `'`. The result is trimmed.
pub open spec fn plain_scalar(rest: Seq<char>) -> Seq<char> {
    let single = rest.len() > 0 && rest[0] == '\'' && rest.last() == '\'';
    let double = rest.len() > 0 && rest[0] == '"' && rest.last() == '"';
    let inner = if (single || double) && rest.len() >= 2 {
        rest.subrange(1, rest.len() - 1)
    } else {
        rest
    };
    trim(
        if single {
            replace(inner, seq!['\'', '\''], seq!['\''])
        } else {
            inner
        },
    )
}

/// How many spaces and tabs open `line`.
pub open spec fn indent_of(line: Seq<char>) -> int {
    skip_forward(line, CharClass::Indent, 0)
}

/// The lines of a block scalar that begins at line `from`, each without
/// its indentation.
///
/// The indentation is that of the first line that is not blank (`indent`,
/// once such a line was seen). Blank lines count as empty lines. The scalar
/// ends before the first line that is not blank and indented less.
pub open spec fn block_body(lines: Seq<Seq<char>>, from: int, indent: Option<int>) -> Seq<
    Seq<char>,
>
    decreases lines.len() - from,
{
    if from < 0 || from >= lines.len() {
        Seq::empty()
    } else if is_blank(lines[from]) {
        seq![Seq::<char>::empty()] + block_body(lines, from + 1, indent)
    } else {
        let want = match indent {
            Some(n) => n,
            None => indent_of(lines[from]),
        };
        if indent_of(lines[from]) < want {
            Seq::empty()
        } else {
            seq![lines[from].skip(want)] + block_body(lines, from + 1, Some(want))
        }
    }
}

/// What a block scalar that begins at line `from` stands for: its lines
/// joined by line feeds, trimmed.
pub open spec fn block_scalar(lines: Seq<Seq<char>>, from: int) -> Seq<char> {
    trim(join(block_body(lines, from, None), seq!['\n']))
}

/// The description that line `at` gives, if it gives one that is not empty.
/// A value that begins with `|` or `>` announces a block scalar on the lines
/// that follow.
pub open spec fn description_at(lines: Seq<Seq<char>>, at: int) -> Option<Seq<char>> {
    let rest = value_of(lines[at]);
    let text = if rest.len() > 0 && (rest[0] == '|' || rest[0] == '>') {
        block_scalar(lines, at + 1)
    } else {
        plain_scalar(rest)
    };
    if text.len() == 0 {
        None
    } else {
        Some(text)
    }
}

/// The description that the first line at or after `from` with the key
/// `description` gives.
pub open spec fn first_description(lines: Seq<Seq<char>>, from: int) -> Option<Seq<char>>
    decreases lines.len() - from,
{
    if from < 0 || from >= lines.len() {
        None
    } else if key_of(lines[from]) == "description"@ {
        description_at(lines, from)
    } else {
        first_description(lines, from + 1)
    }
}

/// The description that the metadata block of `content` gives.
pub open spec fn description_of(content: Seq<char>) -> Option<Seq<char>> {
    if has_metadata_block(content) {
        first_description(block_lines(lines_of(without_mark(content))), 0)
    } else {
        None
    }
}

fn block_lines_of(lines: &Vec<Vec<char>>) -> (out: Vec<Vec<char>>)
    requires
        lines.len() >= 1,
    ensures
        texts(out@) == block_lines(texts(lines@)),
{
    let delimiter = chars_of("---");
    let ghost all = texts(lines@);
    let mut out: Vec<Vec<char>> = Vec::new();
    let mut i: usize = 1;
    assert(texts(out@) =~= all.subrange(1, 1));
    while i < lines.len() && !same_text(&lines[i], &delimiter)
        invariant
            1 <= i <= lines.len(),
            all == texts(lines@),
            delimiter@ == "---"@,
            closing_line(all, 1) == closing_line(all, i as int),
            texts(out@) == all.subrange(1, i as int),
        decreases lines.len() - i,
    {
        let ghost before = texts(out@);
        let line = slice(&lines[i], 0, lines[i].len());
        assert(line@ =~= lines@[i as int]@);
        out.push(line);
        assert(texts(out@) =~= before.push(all[i as int]));
        assert(all.subrange(1, i + 1) =~= all.subrange(1, i as int).push(all[i as int]));
        i += 1;
    }
    out
}

fn key_and_value(line: &Vec<char>) -> (out: (Vec<char>, Vec<char>))
    ensures
        out.0@ == key_of(line@),
        out.1@ == value_of(line@),
{
    let t = strip_start_of(line, CharClass::Whitespace);
    let colon = find_from(&t, ':', 0);
    let before = slice(&t, 0, colon);
    assert(before@ =~= t@.take(colon as int));
    let key = lowercase_of(&trim_of(&before));
    let value = if colon < t.len() {
        let after = slice(&t, colon + 1, t.len());
        assert(after@ =~= t@.skip(colon + 1));
        trim_of(&after)
    } else {
        Vec::new()
    };
    (key, value)
}

fn plain_scalar_of(rest: &Vec<char>) -> (out: Vec<char>)
    ensures
        out@ == plain_scalar(rest@),
{
    let n = rest.len();
    let single = n > 0 && rest[0] == '\'' && rest[n - 1] == '\'';
    let double = n > 0 && rest[0] == '"' && rest[n - 1] == '"';
    let inner = if (single || double) && n >= 2 {
        slice(rest, 1, n - 1)
    } else {
        slice(rest, 0, n)
    };
    assert(!((single || double) && n >= 2) ==> inner@ =~= rest@);
    if single {
        let pair: Vec<char> = vec!['\'', '\''];
        let one: Vec<char> = vec!['\''];
        assert(pair@ =~= seq!['\'', '\'']);
        assert(one@ =~= seq!['\'']);
        trim_of(&replace_all(&inner, &pair, &one))
    } else {
        trim_of(&inner)
    }
}

fn block_scalar_of(lines: &Vec<Vec<char>>, from: usize) -> (out: Vec<char>)
    requires
        from <= lines.len(),
    ensures
        out@ == block_scalar(texts(lines@), from as int),
{
    let ghost all = texts(lines@);
    let mut body: Vec<Vec<char>> = Vec::new();
    let mut indent: Option<usize> = None;
    let mut i: usize = from;
    let mut open = true;
    assert(texts(body@) =~= Seq::empty());
    assert(Seq::<Seq<char>>::empty() + block_body(all, from as int, None) =~= block_body(
        all,
        from as int,
        None,
    ));
    while open && i < lines.len()
        invariant
            from <= i <= lines.len(),
            all == texts(lines@),
            block_body(all, from as int, None) == texts(body@) + (if open {
                block_body(
                    all,
                    i as int,
                    match indent {
                        Some(n) => Some(n as int),
                        None => None,
                    },
                )
            } else {
                Seq::empty()
            }),
        decreases lines.len() - i, open as int,
    {
        let line = &lines[i];
        let ghost before = texts(body@);
        let ghost rest = block_body(
            all,
            i as int,
            match indent {
                Some(n) => Some(n as int),
                None => None,
            },
        );
        if trim_of(line).len() == 0 {
            body.push(Vec::new());
            assert(texts(body@) =~= before.push(Seq::empty()));
            assert(before + rest =~= before.push(Seq::<char>::empty()) + block_body(
                all,
                i + 1,
                match indent {
                    Some(n) => Some(n as int),
                    None => None,
                },
            ));
            i += 1;
        } else {
            let found = scan_forward(line, CharClass::Indent, 0);
            let want = match indent {
                Some(n) => n,
                None => found,
            };
            if found < want {
                open = false;
            } else {
                let kept = slice(line, want, line.len());
                assert(kept@ =~= all[i as int].skip(want as int));
                body.push(kept);
                assert(texts(body@) =~= before.push(all[i as int].skip(want as int)));
                assert(before + rest =~= before.push(all[i as int].skip(want as int)) + block_body(
                    all,
                    i + 1,
                    Some(want as int),
                ));
                indent = Some(want);
                i += 1;
            }
        }
    }
    assert(texts(body@) + Seq::<Seq<char>>::empty() =~= texts(body@));
    let feed: Vec<char> = vec!['\n'];
    assert(feed@ =~= seq!['\n']);
    trim_of(&join_of(&body, &feed))
}

/// Reads the description out of the metadata block of a marker file's
/// text.
pub fn extract_description_from_skill_md(content: &str) -> (out: Option<String>)
    ensures
        out.deep_view() == description_of(content@),
{
    let chars = chars_of(content);
    if !starts_block(&chars) {
        return None;
    }
    let body = strip_start_of(&chars, CharClass::Exactly('\u{feff}'));
    let lines = split_lines(&body);
    proof {
        reveal_strlit("---\n");
        reveal_strlit("---\r\n");
        assert(body@.len() > 0);
        assert(lines_of(body@).len() >= 1);
    }
    let block = block_lines_of(&lines);
    let wanted = chars_of("description");
    let ghost all = texts(block@);
    let mut i: usize = 0;
    while i < block.len()
        invariant
            i <= block.len(),
            all == texts(block@),
            wanted@ == "description"@,
            description_of(content@) == first_description(all, i as int),
        decreases block.len() - i,
    {
        let (key, rest) = key_and_value(&block[i]);
        if same_text(&key, &wanted) {
            let text = if rest.len() > 0 && (rest[0] == '|' || rest[0] == '>') {
                block_scalar_of(&block, i + 1)
            } else {
                plain_scalar_of(&rest)
            };
            if text.len() == 0 {
                return None;
            }
            return Some(string_of(&text));
        }
        i += 1;
    }
    None
}

} // verus!
