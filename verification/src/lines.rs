//! Text as a list of lines, and back.

use crate::text::{
    extend, find_from, index_of, scan_backward, slice, strip_end, texts, CharClass,
};
use vstd::prelude::*;

verus! {

/// The lines of `text` from index `from` on.
///
/// A line ends at a line feed or at the end of the text; the line feed is
/// not part of it, and neither are the carriage returns just before its
/// end. Text that ends with a line feed has no empty line after it.
pub open spec fn lines_from(text: Seq<char>, from: int) -> Seq<Seq<char>>
    decreases text.len() - from,
{
    if from < 0 || from >= text.len() {
        Seq::empty()
    } else {
        let end = index_of(text, '\n', from);
        if from <= end < text.len() {
            seq![strip_end(text.subrange(from, end), CharClass::Exactly('\r'))] + lines_from(
                text,
                end + 1,
            )
        } else {
            seq![strip_end(text.skip(from), CharClass::Exactly('\r'))]
        }
    }
}

/// The lines of `text`.
pub open spec fn lines_of(text: Seq<char>) -> Seq<Seq<char>> {
    lines_from(text, 0)
}

/// The texts of `parts` with `sep` between them.
pub open spec fn join(parts: Seq<Seq<char>>, sep: Seq<char>) -> Seq<char>
    decreases parts.len(),
{
    if parts.len() == 0 {
        Seq::empty()
    } else if parts.len() == 1 {
        parts[0]
    } else {
        join(parts.drop_last(), sep) + sep + parts.last()
    }
}

/// The lines of `text`.
pub fn split_lines(text: &Vec<char>) -> (out: Vec<Vec<char>>)
    ensures
        texts(out@) == lines_of(text@),
{
    let mut out: Vec<Vec<char>> = Vec::new();
    let mut from: usize = 0;
    assert(texts(out@) =~= Seq::empty());
    while from < text.len()
        invariant
            from <= text.len(),
            lines_of(text@) == texts(out@) + lines_from(text@, from as int),
        decreases text.len() - from,
    {
        let end = find_from(text, '\n', from);
        let raw = slice(text, from, end);
        let keep = scan_backward(&raw, CharClass::Exactly('\r'), raw.len());
        let line = slice(&raw, 0, keep);
        let ghost before = texts(out@);
        let ghost added = line@;
        proof {
            assert(text@.skip(from as int) =~= text@.subrange(from as int, text@.len() as int));
            assert(added =~= strip_end(
                text@.subrange(from as int, end as int),
                CharClass::Exactly('\r'),
            ));
        }
        out.push(line);
        assert(texts(out@) =~= before.push(added));
        if end == text.len() {
            from = end;
            assert(before.push(added) + Seq::<Seq<char>>::empty() =~= before + seq![added]);
        } else {
            from = end + 1;
            assert(before.push(added) + lines_from(text@, end + 1) =~= before + (seq![added]
                + lines_from(text@, end + 1)));
        }
    }
    assert(texts(out@) + Seq::<Seq<char>>::empty() =~= texts(out@));
    out
}

/// The texts of `parts` with `sep` between them.
pub fn join_of(parts: &Vec<Vec<char>>, sep: &Vec<char>) -> (out: Vec<char>)
    ensures
        out@ == join(texts(parts@), sep@),
{
    let mut out: Vec<char> = Vec::new();
    let mut i: usize = 0;
    assert(texts(parts@).take(0) =~= Seq::empty());
    while i < parts.len()
        invariant
            i <= parts.len(),
            out@ == join(texts(parts@).take(i as int), sep@),
        decreases parts.len() - i,
    {
        proof {
            let next = texts(parts@).take(i + 1);
            assert(next.drop_last() =~= texts(parts@).take(i as int));
            assert(next.last() == parts@[i as int]@);
        }
        if i > 0 {
            extend(&mut out, sep);
        }
        extend(&mut out, &parts[i]);
        i += 1;
    }
    assert(texts(parts@).take(parts.len() as int) =~= texts(parts@));
    out
}

} // verus!
