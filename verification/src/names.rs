//! Directory names under which skills are kept in a store.

use crate::text::{
    chars_of, is_blank, occurs_at, replace, replace_all, replace_from, string_of, trim, trim_of,
};
use vstd::prelude::*;

verus! {

/// `s` with each `/` and `\` turned into `-`.
pub open spec fn dash_separators(s: Seq<char>) -> Seq<char> {
    Seq::new(s.len(), |i: int| if s[i] == '/' || s[i] == '\\' { '-' } else { s[i] })
}

/// The directory name that stands for the display name `name`.
///
/// A blank name gives `skill`. Any other name is trimmed, has its path
/// separators turned into dashes and every `..` taken out, and is trimmed
/// once more.
pub open spec fn safe_name(name: Seq<char>) -> Seq<char> {
    if is_blank(name) {
        "skill"@
    } else {
        trim(replace(dash_separators(trim(name)), ".."@, Seq::empty()))
    }
}

fn dash_separators_of(v: &Vec<char>) -> (out: Vec<char>)
    ensures
        out@ == dash_separators(v@),
{
    let mut out: Vec<char> = Vec::new();
    let mut i: usize = 0;
    while i < v.len()
        invariant
            i <= v.len(),
            out@.len() == i,
            forall|k: int| 0 <= k < i ==> out@[k] == dash_separators(v@)[k],
        decreases v.len() - i,
    {
        let c = v[i];
        out.push(if c == '/' || c == '\\' { '-' } else { c });
        i += 1;
    }
    assert(out@ =~= dash_separators(v@));
    out
}

/// The characters of `safe_skill_dir_name`'s result.
pub fn safe_name_of(name: &Vec<char>) -> (out: Vec<char>)
    ensures
        out@ == safe_name(name@),
{
    let trimmed = trim_of(name);
    if trimmed.len() == 0 {
        return chars_of("skill");
    }
    let dashed = dash_separators_of(&trimmed);
    let dots = chars_of("..");
    proof {
        reveal_strlit("..");
    }
    let empty: Vec<char> = Vec::new();
    let cleaned = replace_all(&dashed, &dots, &empty);
    trim_of(&cleaned)
}

/// Maps a skill's display name to the name of its directory.
pub fn safe_skill_dir_name(name: &str) -> (out: String)
    ensures
        out@ == safe_name(name@),
{
    let chars = chars_of(name);
    let safe = safe_name_of(&chars);
    string_of(&safe)
}

/// The character that stands for the digit `d`.
pub open spec fn digit(d: nat) -> char {
    ((48 + d) as u8) as char
}

/// `n` written in decimal digits.
pub open spec fn decimal(n: nat) -> Seq<char>
    decreases n,
{
    if n < 10 {
        seq![digit(n)]
    } else {
        decimal(n / 10).push(digit(n % 10))
    }
}

/// The number that the decimal digits `s` write.
pub open spec fn decimal_value(s: Seq<char>) -> nat
    decreases s.len(),
{
    if s.len() == 0 {
        0
    } else {
        (decimal_value(s.drop_last()) * 10 + ((s.last() as u8) - 48)) as nat
    }
}

/// The `k`-th name tried for a skill whose directory would be called
/// `base`: `base` itself first, then `base-2`, `base-3` and so on.
pub open spec fn candidate(base: Seq<char>, k: nat) -> Seq<char> {
    if k <= 1 {
        base
    } else {
        base + seq!['-'] + decimal(k)
    }
}

/// Reading what `decimal` wrote gives the number back.
pub proof fn lemma_decimal_round_trip(n: nat)
    ensures
        decimal_value(decimal(n)) == n,
        decimal(n).len() >= 1,
    decreases n,
{
    if n < 10 {
        let s = seq![digit(n)];
        assert(s.drop_last() =~= Seq::empty());
        assert(decimal_value(s.drop_last()) == 0);
        assert(s.last() == digit(n));
    } else {
        lemma_decimal_round_trip(n / 10);
        let s = decimal(n / 10).push(digit(n % 10));
        assert(s.drop_last() =~= decimal(n / 10));
        assert(s.last() == digit(n % 10));
    }
}

/// No two of the names tried for one skill are the same.
pub proof fn lemma_candidates_differ(base: Seq<char>, j: nat, k: nat)
    requires
        1 <= j < k,
    ensures
        candidate(base, j) != candidate(base, k),
{
    lemma_decimal_round_trip(j);
    lemma_decimal_round_trip(k);
    let a = candidate(base, j);
    let b = candidate(base, k);
    if j == 1 {
        assert(b.len() > a.len());
    } else if a == b {
        let head = base + seq!['-'];
        assert(a.skip(head.len() as int) =~= decimal(j));
        assert(b.skip(head.len() as int) =~= decimal(k));
    }
}

/// The first `k` names tried for `base`, as a set.
pub open spec fn candidates(base: Seq<char>, k: nat) -> Set<Seq<char>>
    decreases k,
{
    if k == 0 {
        Set::empty()
    } else {
        candidates(base, (k - 1) as nat).insert(candidate(base, k))
    }
}

proof fn lemma_candidates_count(base: Seq<char>, k: nat)
    ensures
        candidates(base, k).finite(),
        candidates(base, k).len() == k,
        forall|s: Seq<char>|
            candidates(base, k).contains(s) ==> exists|j: nat|
                1 <= j <= k && s == #[trigger] candidate(base, j),
        forall|j: nat| 1 <= j <= k ==> candidates(base, k).contains(#[trigger] candidate(base, j)),
    decreases k,
{
    if k > 0 {
        let prev = (k - 1) as nat;
        lemma_candidates_count(base, prev);
        let c = candidate(base, k);
        if candidates(base, prev).contains(c) {
            let j = choose|j: nat| 1 <= j <= prev && c == #[trigger] candidate(base, j);
            lemma_candidates_differ(base, j, k);
        }
        assert forall|s: Seq<char>| candidates(base, k).contains(s) implies exists|j: nat|
            1 <= j <= k && s == #[trigger] candidate(base, j) by {
            if s == c {
                assert(1 <= k <= k && s == candidate(base, k));
            } else {
                let j = choose|j: nat| 1 <= j <= prev && s == #[trigger] candidate(base, j);
                assert(1 <= j <= k && s == candidate(base, j));
            }
        }
    }
}

/// A list that holds each of the first `k` names tried for `base` has at
/// least `k` entries: so a name that is free comes up before the list runs
/// out.
pub proof fn lemma_taken_names_fit(taken: Seq<Seq<char>>, base: Seq<char>, k: nat)
    requires
        forall|j: nat| 1 <= j <= k ==> taken.contains(#[trigger] candidate(base, j)),
    ensures
        k <= taken.len(),
{
    lemma_candidates_count(base, k);
    let tried = candidates(base, k);
    assert(tried.subset_of(taken.to_set())) by {
        assert forall|s: Seq<char>| tried.contains(s) implies taken.to_set().contains(s) by {
            let j = choose|j: nat| 1 <= j <= k && s == #[trigger] candidate(base, j);
            assert(taken.contains(candidate(base, j)));
        }
    }
    vstd::seq_lib::seq_to_set_is_finite(taken);
    vstd::set_lib::lemma_len_subset(tried, taken.to_set());
    taken.lemma_cardinality_of_set();
}

/// `n` written in decimal digits.
pub fn decimal_of(n: u128) -> (out: Vec<char>)
    ensures
        out@ == decimal(n as nat),
    decreases n,
{
    if n < 10 {
        let d: u8 = 48 + (n as u8);
        let mut out: Vec<char> = Vec::new();
        out.push(d as char);
        assert(out@ =~= seq![digit(n as nat)]);
        out
    } else {
        let mut out = decimal_of(n / 10);
        let d: u8 = 48 + ((n % 10) as u8);
        out.push(d as char);
        out
    }
}

/// A directory name for the skill `desired` that `taken` does not hold.
///
/// The names tried are the safe form of `desired`, then that form with
/// `-2`, `-3` and so on after it; the result is the first of them that is
/// not in `taken`.
pub fn unique_skill_dir_name(taken: &Vec<String>, desired: &str) -> (out: String)
    ensures
        !taken.deep_view().contains(out@),
        exists|k: nat|
            1 <= k && out@ == #[trigger] candidate(safe_name(desired@), k) && forall|j: nat|
                1 <= j < k ==> taken.deep_view().contains(
                    #[trigger] candidate(safe_name(desired@), j),
                ),
{
    let base = safe_name_of(&chars_of(desired));
    let ghost names = taken.deep_view();
    let mut k: u128 = 1;
    let mut name = string_of(&base);
    while crate::order::holds_name(taken, name.as_str())
        invariant
            1 <= k <= taken.len() + 1,
            names == taken.deep_view(),
            base@ == safe_name(desired@),
            name@ == candidate(base@, k as nat),
            forall|j: nat| 1 <= j < k ==> names.contains(#[trigger] candidate(base@, j)),
        decreases taken.len() + 1 - k,
    {
        proof {
            assert forall|j: nat| 1 <= j <= k implies names.contains(
                #[trigger] candidate(base@, j),
            ) by {}
            lemma_taken_names_fit(names, base@, k as nat);
        }
        k += 1;
        let mut next = crate::text::slice(&base, 0, base.len());
        next.push('-');
        crate::text::extend(&mut next, &decimal_of(k));
        assert(next@ =~= candidate(base@, k as nat));
        name = string_of(&next);
    }
    assert(1 <= k as nat && name@ == candidate(safe_name(desired@), k as nat));
    name
}

/// The character that stands for the hexadecimal digit `d`, in lower case.
pub open spec fn hex_digit(d: nat) -> char {
    if d < 10 {
        ((48 + d) as u8) as char
    } else {
        ((87 + d) as u8) as char
    }
}

/// `n` written in hexadecimal digits, in lower case.
pub open spec fn lower_hex(n: nat) -> Seq<char>
    decreases n,
{
    if n < 16 {
        seq![hex_digit(n)]
    } else {
        lower_hex(n / 16).push(hex_digit(n % 16))
    }
}

/// `n` written in hexadecimal digits, in lower case.
pub fn lower_hex_of(n: u128) -> (out: Vec<char>)
    ensures
        out@ == lower_hex(n as nat),
    decreases n,
{
    let low = (n % 16) as u8;
    let d: u8 = if low < 10 {
        48 + low
    } else {
        87 + low
    };
    if n < 16 {
        let mut out: Vec<char> = Vec::new();
        out.push(d as char);
        assert(out@ =~= seq![hex_digit(n as nat)]);
        out
    } else {
        let mut out = lower_hex_of(n / 16);
        out.push(d as char);
        out
    }
}

/// An id made of a time in milliseconds and the number of the process
/// that asked for it: the two in hexadecimal, one after the other.
pub fn id_from(millis: u128, process: u32) -> (out: String)
    ensures
        out@ == lower_hex(millis as nat) + lower_hex(process as nat),
{
    let mut out = lower_hex_of(millis);
    crate::text::extend(&mut out, &lower_hex_of(process as u128));
    string_of(&out)
}

proof fn lemma_removal_keeps_to_the_text(s: Seq<char>, pat: Seq<char>, from: int, k: int)
    requires
        0 <= from,
        0 <= k < replace_from(s, pat, Seq::empty(), from).len(),
    ensures
        exists|i: int| from <= i < s.len() && s[i] == replace_from(s, pat, Seq::empty(), from)[k],
    decreases s.len() - from,
{
    let rest = replace_from(s, pat, Seq::<char>::empty(), from);
    if from < s.len() && pat.len() > 0 {
        if occurs_at(s, pat, from) {
            let next = replace_from(s, pat, Seq::<char>::empty(), from + pat.len());
            assert(rest =~= next);
            lemma_removal_keeps_to_the_text(s, pat, from + pat.len(), k);
        } else if k == 0 {
            assert(rest[0] == s[from]);
        } else {
            let next = replace_from(s, pat, Seq::<char>::empty(), from + 1);
            assert(rest[k] == next[k - 1]);
            lemma_removal_keeps_to_the_text(s, pat, from + 1, k - 1);
        }
    }
}

proof fn lemma_no_parent_step_is_left(s: Seq<char>, from: int, k: int)
    requires
        0 <= from,
        0 <= k,
        k + 1 < replace_from(s, seq!['.', '.'], Seq::empty(), from).len(),
    ensures
        !(replace_from(s, seq!['.', '.'], Seq::empty(), from)[k] == '.' && replace_from(
            s,
            seq!['.', '.'],
            Seq::empty(),
            from,
        )[k + 1] == '.'),
    decreases s.len() - from,
{
    let pat = seq!['.', '.'];
    let rest = replace_from(s, pat, Seq::<char>::empty(), from);
    if from < s.len() {
        if occurs_at(s, pat, from) {
            let next = replace_from(s, pat, Seq::<char>::empty(), from + 2);
            assert(rest =~= next);
            lemma_no_parent_step_is_left(s, from + 2, k);
        } else {
            let next = replace_from(s, pat, Seq::<char>::empty(), from + 1);
            assert(rest[k + 1] == next[k]);
            if k > 0 {
                assert(rest[k] == next[k - 1]);
                lemma_no_parent_step_is_left(s, from + 1, k - 1);
            } else if s[from] == '.' {
                assert(rest[0] == s[from]);
                assert(from + 1 < s.len());
                if s[from + 1] == '.' {
                    assert(s.subrange(from, from + 2) =~= pat);
                }
                assert(!occurs_at(s, pat, from + 1)) by {
                    if occurs_at(s, pat, from + 1) {
                        assert(s.subrange(from + 1, from + 3)[0] == '.');
                    }
                }
                assert(next[0] == s[from + 1]);
            }
        }
    }
}

/// A directory name made by `safe_name` is safe to put under a directory:
/// it holds no path separator and no `..`, and neither begins nor ends
/// with white space.
pub proof fn lemma_safe_name_is_safe(name: Seq<char>)
    ensures
        forall|i: int|
            0 <= i < safe_name(name).len() ==> (#[trigger] safe_name(name)[i]) != '/' && safe_name(
                name,
            )[i] != '\\',
        forall|i: int|
            0 <= i && i + 1 < safe_name(name).len() ==> !((#[trigger] safe_name(name)[i]) == '.'
                && safe_name(name)[i + 1] == '.'),
        safe_name(name).len() > 0 ==> !crate::text::is_whitespace(safe_name(name)[0])
            && !crate::text::is_whitespace(safe_name(name).last()),
{
    let safe = safe_name(name);
    if is_blank(name) {
        reveal_strlit("skill");
        assert(safe.len() == 5);
    } else {
        reveal_strlit("..");
        let dashed = dash_separators(trim(name));
        let pat = seq!['.', '.'];
        assert(".."@ =~= pat);
        let cleaned = replace(dashed, pat, Seq::empty());
        crate::text::lemma_trim_is_clean(cleaned);
        let (from, to) = choose|from: int, to: int|
            0 <= from <= to <= cleaned.len() && trim(cleaned) == cleaned.subrange(from, to);
        assert forall|i: int| 0 <= i < safe.len() implies (#[trigger] safe[i]) != '/' && safe[i]
            != '\\' by {
            assert(safe[i] == cleaned[from + i]);
            lemma_removal_keeps_to_the_text(dashed, pat, 0, from + i);
        }
        assert forall|i: int| 0 <= i && i + 1 < safe.len() implies !((#[trigger] safe[i]) == '.'
            && safe[i + 1] == '.') by {
            assert(safe[i] == cleaned[from + i]);
            assert(safe[i + 1] == cleaned[from + i + 1]);
            lemma_no_parent_step_is_left(dashed, 0, from + i);
        }
    }
}

} // verus!
