//! Character sequences: the primitives every other module is built from.
//!
//! Text is handled as `Vec<char>` inside the library and as `&str` / `String`
//! at its public surface; the specifications speak of `Seq<char>` throughout.

use vstd::prelude::*;

verus! {

/// The Unicode `White_Space` property, which is what `str::trim` strips.
pub open spec fn is_whitespace(c: char) -> bool {
    let n = c as u32;
    (0x09 <= n && n <= 0x0D) || n == 0x20 || n == 0x85 || n == 0xA0 || n == 0x1680 || (0x2000 <= n
        && n <= 0x200A) || n == 0x2028 || n == 0x2029 || n == 0x202F || n == 0x205F || n == 0x3000
}

/// A set of characters that a scan can skip over.
#[derive(Clone, Copy, Debug, PartialEq, Eq)]
pub enum CharClass {
    /// Unicode white space.
    Whitespace,
    /// Space and tab: the characters that indent a line.
    Indent,
    /// One given character.
    Exactly(char),
}

impl CharClass {
    pub open spec fn holds(self, c: char) -> bool {
        match self {
            CharClass::Whitespace => is_whitespace(c),
            CharClass::Indent => c == ' ' || c == '\t',
            CharClass::Exactly(d) => c == d,
        }
    }

    pub fn test(self, c: char) -> (r: bool)
        ensures
            r == self.holds(c),
    {
        match self {
            CharClass::Whitespace => {
                let n: u32 = c as u32;
                (0x09 <= n && n <= 0x0D) || n == 0x20 || n == 0x85 || n == 0xA0 || n == 0x1680 || (
                0x2000 <= n && n <= 0x200A) || n == 0x2028 || n == 0x2029 || n == 0x202F || n
                    == 0x205F || n == 0x3000
            },
            CharClass::Indent => c == ' ' || c == '\t',
            CharClass::Exactly(d) => c == d,
        }
    }
}

/// The first index at or after `from` whose character is not in `class`
/// (`s.len()` if there is none).
pub open spec fn skip_forward(s: Seq<char>, class: CharClass, from: int) -> int
    decreases s.len() - from,
{
    if 0 <= from < s.len() && class.holds(s[from]) {
        skip_forward(s, class, from + 1)
    } else {
        from
    }
}

/// The end of the longest prefix of `s.take(to)` whose last character is not
/// in `class` (`0` if every character before `to` is in it).
pub open spec fn skip_backward(s: Seq<char>, class: CharClass, to: int) -> int
    decreases to,
{
    if 0 < to <= s.len() && class.holds(s[to - 1]) {
        skip_backward(s, class, to - 1)
    } else {
        to
    }
}

/// `s` without its leading characters of `class`.
pub open spec fn strip_start(s: Seq<char>, class: CharClass) -> Seq<char> {
    s.skip(skip_forward(s, class, 0))
}

/// `s` without its trailing characters of `class`.
pub open spec fn strip_end(s: Seq<char>, class: CharClass) -> Seq<char> {
    s.take(skip_backward(s, class, s.len() as int))
}

/// `s` without leading and trailing white space.
pub open spec fn trim(s: Seq<char>) -> Seq<char> {
    strip_end(strip_start(s, CharClass::Whitespace), CharClass::Whitespace)
}

/// Whether `s` holds nothing but white space.
pub open spec fn is_blank(s: Seq<char>) -> bool {
    trim(s).len() == 0
}

proof fn lemma_skip_forward_bounds(s: Seq<char>, class: CharClass, from: int)
    requires
        0 <= from <= s.len(),
    ensures
        from <= skip_forward(s, class, from) <= s.len(),
        forall|k: int| from <= k < skip_forward(s, class, from) ==> class.holds(#[trigger] s[k]),
        skip_forward(s, class, from) < s.len() ==> !class.holds(s[skip_forward(s, class, from)]),
    decreases s.len() - from,
{
    if from < s.len() && class.holds(s[from]) {
        lemma_skip_forward_bounds(s, class, from + 1);
    }
}

proof fn lemma_skip_backward_bounds(s: Seq<char>, class: CharClass, to: int)
    requires
        0 <= to <= s.len(),
    ensures
        0 <= skip_backward(s, class, to) <= to,
        forall|k: int| skip_backward(s, class, to) <= k < to ==> class.holds(#[trigger] s[k]),
        skip_backward(s, class, to) > 0 ==> !class.holds(s[skip_backward(s, class, to) - 1]),
    decreases to,
{
    if 0 < to && class.holds(s[to - 1]) {
        lemma_skip_backward_bounds(s, class, to - 1);
    }
}

proof fn lemma_skip_forward_is(s: Seq<char>, class: CharClass, from: int, at: int)
    requires
        0 <= from <= at <= s.len(),
        forall|k: int| from <= k < at ==> class.holds(#[trigger] s[k]),
        at < s.len() ==> !class.holds(s[at]),
    ensures
        skip_forward(s, class, from) == at,
    decreases at - from,
{
    if from < at {
        lemma_skip_forward_is(s, class, from + 1, at);
    }
}

proof fn lemma_skip_backward_is(s: Seq<char>, class: CharClass, to: int, at: int)
    requires
        0 <= at <= to <= s.len(),
        forall|k: int| at <= k < to ==> class.holds(#[trigger] s[k]),
        at > 0 ==> !class.holds(s[at - 1]),
    ensures
        skip_backward(s, class, to) == at,
    decreases to - at,
{
    if at < to {
        lemma_skip_backward_is(s, class, to - 1, at);
    }
}

/// A trimmed text neither begins nor ends with white space, and is a part
/// of the text it was made from.
pub proof fn lemma_trim_is_clean(s: Seq<char>)
    ensures
        trim(s).len() > 0 ==> !is_whitespace(trim(s)[0]) && !is_whitespace(trim(s).last()),
        exists|from: int, to: int| 0 <= from <= to <= s.len() && trim(s) == s.subrange(from, to),
{
    let from = skip_forward(s, CharClass::Whitespace, 0);
    lemma_skip_forward_bounds(s, CharClass::Whitespace, 0);
    let head = s.skip(from);
    let keep = skip_backward(head, CharClass::Whitespace, head.len() as int);
    lemma_skip_backward_bounds(head, CharClass::Whitespace, head.len() as int);
    assert(trim(s) =~= s.subrange(from, from + keep));
    if trim(s).len() > 0 {
        assert(trim(s)[0] == s[from]);
        assert(trim(s).last() == head[keep - 1]);
    }
}

/// Trimming a trimmed text changes nothing.
pub proof fn lemma_trim_twice(s: Seq<char>)
    ensures
        trim(trim(s)) == trim(s),
{
    let t = trim(s);
    lemma_trim_is_clean(s);
    lemma_skip_forward_is(t, CharClass::Whitespace, 0, 0);
    assert(t.skip(0) =~= t);
    lemma_skip_backward_is(t, CharClass::Whitespace, t.len() as int, t.len() as int);
    assert(t.take(t.len() as int) =~= t);
}

/// The texts that a list of character vectors holds.
pub open spec fn texts(list: Seq<Vec<char>>) -> Seq<Seq<char>> {
    Seq::new(list.len(), |i: int| list[i]@)
}

/// The characters of `s`, in order.
pub fn chars_of(s: &str) -> (out: Vec<char>)
    ensures
        out@ == s@,
{
    let mut out: Vec<char> = Vec::new();
    for c in it: s.chars()
        invariant
            it.seq() == s@,
            out@ == s@.take(it.index() as int),
    {
        out.push(c);
    }
    out
}

/// `String::from_iter` over the characters of `chars`: the string that holds
/// exactly those characters, in the same order.
#[verifier::external_body]
pub(crate) fn string_of(chars: &Vec<char>) -> (out: String)
    ensures
        out@ == chars@,
{
    String::from_iter(chars.iter())
}

/// The first index at or after `from` whose character is not in `class`.
pub fn scan_forward(v: &Vec<char>, class: CharClass, from: usize) -> (at: usize)
    requires
        from <= v.len(),
    ensures
        at == skip_forward(v@, class, from as int),
        from <= at <= v.len(),
{
    let mut i: usize = from;
    while i < v.len() && class.test(v[i])
        invariant
            from <= i <= v.len(),
            skip_forward(v@, class, from as int) == skip_forward(v@, class, i as int),
        decreases v.len() - i,
    {
        i += 1;
    }
    i
}

/// The end of the text before `to` once its trailing `class` characters are
/// dropped.
pub fn scan_backward(v: &Vec<char>, class: CharClass, to: usize) -> (at: usize)
    requires
        to <= v.len(),
    ensures
        at == skip_backward(v@, class, to as int),
        at <= to,
{
    let mut j: usize = to;
    while j > 0 && class.test(v[j - 1])
        invariant
            j <= to <= v.len(),
            skip_backward(v@, class, to as int) == skip_backward(v@, class, j as int),
        decreases j,
    {
        j -= 1;
    }
    j
}

/// A copy of `v[from..to]`.
pub fn slice(v: &Vec<char>, from: usize, to: usize) -> (out: Vec<char>)
    requires
        from <= to <= v.len(),
    ensures
        out@ == v@.subrange(from as int, to as int),
{
    let mut out: Vec<char> = Vec::new();
    let mut i: usize = from;
    while i < to
        invariant
            from <= i <= to <= v.len(),
            out@ == v@.subrange(from as int, i as int),
        decreases to - i,
    {
        out.push(v[i]);
        i += 1;
    }
    out
}

/// Appends `tail` to `v`.
pub fn extend(v: &mut Vec<char>, tail: &Vec<char>)
    ensures
        final(v)@ == old(v)@ + tail@,
{
    let mut i: usize = 0;
    while i < tail.len()
        invariant
            i <= tail.len(),
            v@ == old(v)@ + tail@.take(i as int),
        decreases tail.len() - i,
    {
        v.push(tail[i]);
        i += 1;
    }
}

/// `v` without its leading characters of `class`.
pub fn strip_start_of(v: &Vec<char>, class: CharClass) -> (out: Vec<char>)
    ensures
        out@ == strip_start(v@, class),
{
    let a = scan_forward(v, class, 0);
    slice(v, a, v.len())
}

/// `v` without its trailing characters of `class`.
pub fn strip_end_of(v: &Vec<char>, class: CharClass) -> (out: Vec<char>)
    ensures
        out@ == strip_end(v@, class),
{
    let b = scan_backward(v, class, v.len());
    slice(v, 0, b)
}

/// `v` without leading and trailing white space.
pub fn trim_of(v: &Vec<char>) -> (out: Vec<char>)
    ensures
        out@ == trim(v@),
{
    let head = strip_start_of(v, CharClass::Whitespace);
    strip_end_of(&head, CharClass::Whitespace)
}

/// Whether `pat` occurs in `s` at index `at`.
pub open spec fn occurs_at(s: Seq<char>, pat: Seq<char>, at: int) -> bool {
    0 <= at && at + pat.len() <= s.len() && s.subrange(at, at + pat.len()) == pat
}

/// Whether `s` begins with `pat`.
pub open spec fn starts_with(s: Seq<char>, pat: Seq<char>) -> bool {
    occurs_at(s, pat, 0)
}

/// Whether `s` ends with `pat`.
pub open spec fn ends_with(s: Seq<char>, pat: Seq<char>) -> bool {
    occurs_at(s, pat, s.len() - pat.len())
}

/// Whether `pat` occurs somewhere in `s`.
pub open spec fn contains(s: Seq<char>, pat: Seq<char>) -> bool {
    exists|at: int| occurs_at(s, pat, at)
}

/// `s.skip(from)` with every occurrence of `pat` replaced by `with`, found
/// left to right without overlap.
pub open spec fn replace_from(s: Seq<char>, pat: Seq<char>, with: Seq<char>, from: int) -> Seq<char>
    recommends
        pat.len() > 0,
    decreases s.len() - from,
{
    if from < 0 || from >= s.len() || pat.len() == 0 {
        Seq::empty()
    } else if occurs_at(s, pat, from) {
        with + replace_from(s, pat, with, from + pat.len())
    } else {
        seq![s[from]] + replace_from(s, pat, with, from + 1)
    }
}

/// `s` with every occurrence of the non-empty `pat` replaced by `with`.
pub open spec fn replace(s: Seq<char>, pat: Seq<char>, with: Seq<char>) -> Seq<char>
    recommends
        pat.len() > 0,
{
    replace_from(s, pat, with, 0)
}

/// The lower-case form of an ASCII upper-case letter; any other character
/// is left as it is.
pub open spec fn ascii_lower(c: char) -> char {
    if 'A' <= c && c <= 'Z' {
        ((c as u8) + 32) as char
    } else {
        c
    }
}

/// `s` with its ASCII upper-case letters in lower case.
pub open spec fn to_ascii_lowercase(s: Seq<char>) -> Seq<char> {
    Seq::new(s.len(), |i: int| ascii_lower(s[i]))
}

/// Equality up to the case of ASCII letters.
pub open spec fn eq_ignore_ascii_case(a: Seq<char>, b: Seq<char>) -> bool {
    to_ascii_lowercase(a) == to_ascii_lowercase(b)
}

/// The index of the first `c` at or after `from`, or `s.len()`.
pub open spec fn index_of(s: Seq<char>, c: char, from: int) -> int
    decreases s.len() - from,
{
    if 0 <= from < s.len() && s[from] != c {
        index_of(s, c, from + 1)
    } else {
        from
    }
}

/// How many times `c` occurs in `s`.
pub open spec fn count_of(s: Seq<char>, c: char) -> nat
    decreases s.len(),
{
    if s.len() == 0 {
        0
    } else {
        count_of(s.drop_last(), c) + if s.last() == c { 1nat } else { 0nat }
    }
}

/// Whether `pat` occurs in `v` at index `at`.
pub fn matches_at(v: &Vec<char>, pat: &Vec<char>, at: usize) -> (r: bool)
    ensures
        r == occurs_at(v@, pat@, at as int),
{
    if at > v.len() || pat.len() > v.len() - at {
        return false;
    }
    let mut k: usize = 0;
    while k < pat.len()
        invariant
            k <= pat.len(),
            at + pat.len() <= v.len(),
            forall|j: int| 0 <= j < k ==> v@[at + j] == pat@[j],
        decreases pat.len() - k,
    {
        if v[at + k] != pat[k] {
            assert(v@.subrange(at as int, at + pat.len())[k as int] != pat@[k as int]);
            return false;
        }
        k += 1;
    }
    assert(v@.subrange(at as int, at + pat.len()) =~= pat@);
    true
}

/// Whether `v` begins with `pat`.
pub fn has_prefix(v: &Vec<char>, pat: &Vec<char>) -> (r: bool)
    ensures
        r == starts_with(v@, pat@),
{
    matches_at(v, pat, 0)
}

/// Whether `v` ends with `pat`.
pub fn has_suffix(v: &Vec<char>, pat: &Vec<char>) -> (r: bool)
    ensures
        r == ends_with(v@, pat@),
{
    if pat.len() > v.len() {
        return false;
    }
    matches_at(v, pat, v.len() - pat.len())
}

/// Whether `pat` occurs somewhere in `v`.
pub fn has_infix(v: &Vec<char>, pat: &Vec<char>) -> (r: bool)
    ensures
        r == contains(v@, pat@),
{
    let mut i: usize = 0;
    while i < v.len()
        invariant
            i <= v.len(),
            forall|k: int| 0 <= k < i ==> !occurs_at(v@, pat@, k),
        decreases v.len() - i,
    {
        if matches_at(v, pat, i) {
            return true;
        }
        i += 1;
    }
    matches_at(v, pat, i)
}

/// `v` with every occurrence of the non-empty `pat` replaced by `with`.
pub fn replace_all(v: &Vec<char>, pat: &Vec<char>, with: &Vec<char>) -> (out: Vec<char>)
    requires
        pat.len() > 0,
    ensures
        out@ == replace(v@, pat@, with@),
{
    let mut out: Vec<char> = Vec::new();
    let mut i: usize = 0;
    while i < v.len()
        invariant
            i <= v.len(),
            pat.len() > 0,
            replace(v@, pat@, with@) == out@ + replace_from(v@, pat@, with@, i as int),
        decreases v.len() - i,
    {
        let ghost before = out@;
        if matches_at(v, pat, i) {
            extend(&mut out, with);
            assert(before + (with@ + replace_from(v@, pat@, with@, i + pat.len())) =~= out@
                + replace_from(v@, pat@, with@, i + pat.len()));
            i += pat.len();
        } else {
            out.push(v[i]);
            assert(before + (seq![v@[i as int]] + replace_from(v@, pat@, with@, i + 1)) =~= out@
                + replace_from(v@, pat@, with@, i + 1));
            i += 1;
        }
    }
    assert(out@ + Seq::<char>::empty() =~= out@);
    out
}

/// The lower-case form of an ASCII upper-case letter.
pub fn lower(c: char) -> (r: char)
    ensures
        r == ascii_lower(c),
{
    if 'A' <= c && c <= 'Z' {
        ((c as u8) + 32) as char
    } else {
        c
    }
}

/// `v` with its ASCII upper-case letters in lower case.
pub fn lowercase_of(v: &Vec<char>) -> (out: Vec<char>)
    ensures
        out@ == to_ascii_lowercase(v@),
{
    let mut out: Vec<char> = Vec::new();
    let mut i: usize = 0;
    while i < v.len()
        invariant
            i <= v.len(),
            out@.len() == i,
            forall|k: int| 0 <= k < i ==> out@[k] == ascii_lower(v@[k]),
        decreases v.len() - i,
    {
        out.push(lower(v[i]));
        i += 1;
    }
    assert(out@ =~= to_ascii_lowercase(v@));
    out
}

/// Whether two texts hold the same characters.
pub fn same_text(a: &Vec<char>, b: &Vec<char>) -> (r: bool)
    ensures
        r == (a@ == b@),
{
    if a.len() != b.len() {
        return false;
    }
    let r = matches_at(a, b, 0);
    assert(a@.subrange(0, a@.len() as int) =~= a@);
    r
}

/// The index of the first `c` at or after `from`, or `v.len()`.
pub fn find_from(v: &Vec<char>, c: char, from: usize) -> (at: usize)
    requires
        from <= v.len(),
    ensures
        at == index_of(v@, c, from as int),
        from <= at <= v.len(),
{
    let mut i: usize = from;
    while i < v.len() && v[i] != c
        invariant
            from <= i <= v.len(),
            index_of(v@, c, from as int) == index_of(v@, c, i as int),
        decreases v.len() - i,
    {
        i += 1;
    }
    i
}

/// How many times `c` occurs in `v`.
pub fn count_in(v: &Vec<char>, c: char) -> (n: usize)
    ensures
        n == count_of(v@, c),
{
    let mut n: usize = 0;
    let mut i: usize = 0;
    while i < v.len()
        invariant
            i <= v.len(),
            n <= i,
            n == count_of(v@.take(i as int), c),
        decreases v.len() - i,
    {
        assert(v@.take(i + 1).drop_last() =~= v@.take(i as int));
        if v[i] == c {
            n += 1;
        }
        i += 1;
    }
    assert(v@.take(v.len() as int) =~= v@);
    n
}

} // verus!
