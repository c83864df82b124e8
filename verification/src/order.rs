//! The order of texts, and lists of names kept in that order.
//!
//! Texts are ordered as `str` orders them: character by character, by code
//! point, a proper prefix before any of its extensions.

use crate::text::chars_of;
use vstd::prelude::*;

verus! {

/// Whether `a`, read from index `from` on, comes no later than `b` read from
/// the same index.
pub open spec fn le_from(a: Seq<char>, b: Seq<char>, from: int) -> bool
    decreases a.len() - from,
{
    if from < 0 || from >= a.len() {
        true
    } else if from >= b.len() {
        false
    } else if a[from] != b[from] {
        a[from] < b[from]
    } else {
        le_from(a, b, from + 1)
    }
}

/// `a` comes no later than `b`.
pub open spec fn text_le(a: Seq<char>, b: Seq<char>) -> bool {
    le_from(a, b, 0)
}

/// `a` comes before `b`.
pub open spec fn text_lt(a: Seq<char>, b: Seq<char>) -> bool {
    text_le(a, b) && a != b
}

/// Each text comes no later than those after it.
pub open spec fn ascending(s: Seq<Seq<char>>) -> bool {
    forall|i: int, j: int| 0 <= i < j < s.len() ==> text_le(#[trigger] s[i], #[trigger] s[j])
}

/// Each text comes before those after it: ascending, and nothing twice.
pub open spec fn strictly_ascending(s: Seq<Seq<char>>) -> bool {
    forall|i: int, j: int| 0 <= i < j < s.len() ==> text_lt(#[trigger] s[i], #[trigger] s[j])
}

proof fn lemma_le_from_total(a: Seq<char>, b: Seq<char>, from: int)
    requires
        0 <= from,
    ensures
        le_from(a, b, from) || le_from(b, a, from),
    decreases a.len() - from,
{
    if from < a.len() && from < b.len() {
        if a[from] == b[from] {
            lemma_le_from_total(a, b, from + 1);
        } else {
        }
    } else if from >= a.len() {
    } else {
        assert(le_from(b, a, from));
    }
}

proof fn lemma_le_from_trans(a: Seq<char>, b: Seq<char>, c: Seq<char>, from: int)
    requires
        0 <= from,
        le_from(a, b, from),
        le_from(b, c, from),
    ensures
        le_from(a, c, from),
    decreases a.len() - from,
{
    if from < a.len() {
        if a[from] == b[from] && b[from] == c[from] {
            lemma_le_from_trans(a, b, c, from + 1);
        }
    }
}

proof fn lemma_le_from_antisym(a: Seq<char>, b: Seq<char>, from: int)
    requires
        0 <= from <= a.len(),
        from <= b.len(),
        le_from(a, b, from),
        le_from(b, a, from),
    ensures
        a.skip(from) == b.skip(from),
    decreases a.len() - from,
{
    if from < a.len() {
        lemma_le_from_antisym(a, b, from + 1);
        assert(a.skip(from) =~= seq![a[from]] + a.skip(from + 1));
        assert(b.skip(from) =~= seq![b[from]] + b.skip(from + 1));
    } else {
        assert(a.skip(from) =~= b.skip(from));
    }
}

proof fn lemma_le_from_refl(a: Seq<char>, from: int)
    requires
        0 <= from,
    ensures
        le_from(a, a, from),
    decreases a.len() - from,
{
    if from < a.len() {
        lemma_le_from_refl(a, from + 1);
    }
}

/// Every text comes no later than itself.
pub proof fn lemma_text_le_reflexive(a: Seq<char>)
    ensures
        text_le(a, a),
{
    lemma_le_from_refl(a, 0);
}

/// Of two texts, one comes no later than the other.
pub proof fn lemma_text_le_total(a: Seq<char>, b: Seq<char>)
    ensures
        text_le(a, b) || text_le(b, a),
{
    lemma_le_from_total(a, b, 0);
}

/// The order passes along a chain.
pub proof fn lemma_text_le_transitive(a: Seq<char>, b: Seq<char>, c: Seq<char>)
    requires
        text_le(a, b),
        text_le(b, c),
    ensures
        text_le(a, c),
{
    lemma_le_from_trans(a, b, c, 0);
}

/// Two texts that each come no later than the other are the same text.
pub proof fn lemma_text_le_antisymmetric(a: Seq<char>, b: Seq<char>)
    requires
        text_le(a, b),
        text_le(b, a),
    ensures
        a == b,
{
    lemma_le_from_antisym(a, b, 0);
    assert(a.skip(0) =~= a);
    assert(b.skip(0) =~= b);
}

/// Whether `a` comes no later than `b`.
pub fn chars_le(a: &Vec<char>, b: &Vec<char>) -> (r: bool)
    ensures
        r == text_le(a@, b@),
{
    let mut i: usize = 0;
    while i < a.len()
        invariant
            i <= a.len(),
            text_le(a@, b@) == le_from(a@, b@, i as int),
        decreases a.len() - i,
    {
        if i >= b.len() {
            return false;
        }
        if a[i] != b[i] {
            return a[i] < b[i];
        }
        i += 1;
    }
    true
}

/// Whether `a` comes no later than `b`, as `a <= b` says of two `str`.
pub fn str_le(a: &str, b: &str) -> (r: bool)
    ensures
        r == text_le(a@, b@),
{
    let x = chars_of(a);
    let y = chars_of(b);
    chars_le(&x, &y)
}

/// Whether `a` and `b` hold the same characters.
pub fn str_eq(a: &str, b: &str) -> (r: bool)
    ensures
        r == (a@ == b@),
{
    let x = chars_of(a);
    let y = chars_of(b);
    crate::text::same_text(&x, &y)
}

/// Whether `names` holds `name`.
pub fn holds_name(names: &Vec<String>, name: &str) -> (r: bool)
    ensures
        r == names.deep_view().contains(name@),
{
    let mut i: usize = 0;
    while i < names.len()
        invariant
            i <= names.len(),
            forall|k: int| 0 <= k < i ==> names.deep_view()[k] != name@,
        decreases names.len() - i,
    {
        if str_eq(names[i].as_str(), name) {
            assert(names.deep_view()[i as int] == name@);
            return true;
        }
        i += 1;
    }
    false
}

/// Puts `name` into the ascending list `names`, after every text that comes
/// no later than it.
pub fn insert_ascending(names: &mut Vec<String>, name: String)
    requires
        ascending(old(names).deep_view()),
    ensures
        ascending(final(names).deep_view()),
        final(names).deep_view().to_multiset() == old(names).deep_view().to_multiset().insert(
            name@,
        ),
{
    let mut at: usize = 0;
    while at < names.len() && str_le(names[at].as_str(), name.as_str())
        invariant
            at <= names.len(),
            forall|k: int| 0 <= k < at ==> text_le(#[trigger] names.deep_view()[k], name@),
        decreases names.len() - at,
    {
        at += 1;
    }
    let ghost before = names.deep_view();
    proof {
        if at < names.len() {
            lemma_text_le_total(before[at as int], name@);
            assert forall|k: int| at <= k < before.len() implies text_le(
                name@,
                #[trigger] before[k],
            ) by {
                if k > at {
                    lemma_text_le_transitive(name@, before[at as int], before[k]);
                }
            }
        }
    }
    names.insert(at, name);
    proof {
        let after = names.deep_view();
        assert(after =~= before.insert(at as int, name@));
        before.insert_ensures(at as int, name@);
        vstd::seq_lib::to_multiset_insert(before, at as int, name@);
        assert forall|i: int, j: int| 0 <= i < j < after.len() implies text_le(
            #[trigger] after[i],
            #[trigger] after[j],
        ) by {
            if i < at && j > at {
                assert(after[j] == before[j - 1]);
            } else if i > at {
                assert(after[i] == before[i - 1]);
                assert(after[j] == before[j - 1]);
            } else if i == at {
                assert(after[j] == before[j - 1]);
            }
        }
    }
}

/// Puts `name` into the strictly ascending list `names` at its place, unless
/// the list holds it already.
pub fn insert_unique(names: &mut Vec<String>, name: String)
    requires
        strictly_ascending(old(names).deep_view()),
    ensures
        strictly_ascending(final(names).deep_view()),
        final(names).deep_view().to_set() == old(names).deep_view().to_set().insert(name@),
        old(names).deep_view().contains(name@) ==> final(names).deep_view() == old(
            names,
        ).deep_view(),
{
    let ghost before = names.deep_view();
    let mut at: usize = 0;
    while at < names.len() && !str_le(name.as_str(), names[at].as_str())
        invariant
            at <= names.len(),
            names.deep_view() == before,
            forall|k: int| 0 <= k < at ==> text_lt(#[trigger] before[k], name@),
        decreases names.len() - at,
    {
        proof {
            lemma_text_le_total(before[at as int], name@);
        }
        at += 1;
    }
    if at < names.len() && str_eq(names[at].as_str(), name.as_str()) {
        proof {
            assert(before[at as int] == name@);
            assert(before.to_set().insert(name@) =~= before.to_set());
        }
        return ;
    }
    proof {
        assert forall|k: int| at <= k < before.len() implies text_lt(name@, #[trigger] before[k]) by {
            if k > at {
                lemma_text_le_transitive(name@, before[at as int], before[k]);
                if name@ == before[k] {
                    lemma_text_le_antisymmetric(before[at as int], before[k]);
                }
            }
        }
        assert(!before.contains(name@)) by {
            if before.contains(name@) {
                let k = choose|k: int| 0 <= k < before.len() && before[k] == name@;
                assert(text_lt(before[k], name@) || text_lt(name@, before[k]));
            }
        }
    }
    names.insert(at, name);
    proof {
        let after = names.deep_view();
        assert(after =~= before.insert(at as int, name@));
        before.insert_ensures(at as int, name@);
        assert forall|i: int, j: int| 0 <= i < j < after.len() implies text_lt(
            #[trigger] after[i],
            #[trigger] after[j],
        ) by {
            if i < at && j > at {
                assert(after[j] == before[j - 1]);
                lemma_text_le_transitive(after[i], name@, after[j]);
                if after[i] == after[j] {
                    lemma_text_le_antisymmetric(name@, after[j]);
                }
            } else if i > at {
                assert(after[i] == before[i - 1]);
                assert(after[j] == before[j - 1]);
            } else if i == at {
                assert(after[j] == before[j - 1]);
            }
        }
        assert(after.to_set() =~= before.to_set().insert(name@)) by {
            assert forall|x: Seq<char>| after.to_set().contains(x) <==> before.to_set().insert(
                name@,
            ).contains(x) by {
                if after.contains(x) {
                    let k = choose|k: int| 0 <= k < after.len() && after[k] == x;
                    if k < at {
                        assert(before[k] == x);
                    } else if k > at {
                        assert(before[k - 1] == x);
                    }
                }
                if before.contains(x) {
                    let k = choose|k: int| 0 <= k < before.len() && before[k] == x;
                    if k < at {
                        assert(after[k] == x);
                    } else {
                        assert(after[k + 1] == x);
                    }
                }
                if x == name@ {
                    assert(after[at as int] == x);
                }
            }
        }
    }
}

/// The texts of `names` in ascending order.
pub fn sorted_names(names: Vec<String>) -> (out: Vec<String>)
    ensures
        out.deep_view() == ordered(names.deep_view()),
{
    let mut out: Vec<String> = Vec::new();
    let mut i: usize = 0;
    assert(names.deep_view().take(0) =~= Seq::empty());
    assert(out.deep_view() =~= Seq::empty());
    while i < names.len()
        invariant
            i <= names.len(),
            ascending(out.deep_view()),
            out.deep_view().to_multiset() == names.deep_view().take(i as int).to_multiset(),
        decreases names.len() - i,
    {
        proof {
            let done = names.deep_view().take(i as int);
            assert(names.deep_view().take(i + 1) =~= done.push(names.deep_view()[i as int]));
            vstd::seq_lib::to_multiset_build(done, names.deep_view()[i as int]);
        }
        insert_ascending(&mut out, names[i].clone());
        i += 1;
    }
    assert(names.deep_view().take(names.len() as int) =~= names.deep_view());
    proof {
        lemma_ascending_is_ordered(out.deep_view(), names.deep_view());
    }
    out
}

/// Two strictly ascending lists that hold the same texts are the same list.
pub proof fn lemma_strictly_ascending_unique(a: Seq<Seq<char>>, b: Seq<Seq<char>>)
    requires
        strictly_ascending(a),
        strictly_ascending(b),
        a.to_set() == b.to_set(),
    ensures
        a == b,
    decreases a.len(),
{
    if a.len() == 0 {
        if b.len() > 0 {
            assert(b.to_set().contains(b[0]));
            assert(a.contains(b[0]));
        }
        assert(a =~= b);
    } else {
        let x = a.last();
        assert(a.to_set().contains(a[a.len() - 1]));
        assert(b.contains(x));
        let k = choose|k: int| 0 <= k < b.len() && b[k] == x;
        let y = b.last();
        assert(b.to_set().contains(b[b.len() - 1]));
        assert(a.contains(y));
        let m = choose|m: int| 0 <= m < a.len() && a[m] == y;
        if k < b.len() - 1 {
            assert(text_lt(b[k], b[b.len() - 1]));
            if m < a.len() - 1 {
                assert(text_lt(a[m], a[a.len() - 1]));
            }
            lemma_text_le_reflexive(x);
            lemma_text_le_antisymmetric(x, y);
        }
        assert(x == y);
        let a0 = a.drop_last();
        let b0 = b.drop_last();
        assert forall|t: Seq<char>| a0.to_set().contains(t) <==> b0.to_set().contains(t) by {
            if a0.contains(t) {
                let i = choose|i: int| 0 <= i < a0.len() && a0[i] == t;
                assert(a[i] == t);
                assert(text_lt(a[i], a[a.len() - 1]));
                assert(a.to_set().contains(t));
                assert(b.contains(t));
                let j = choose|j: int| 0 <= j < b.len() && b[j] == t;
                assert(b0[j] == t);
            }
            if b0.contains(t) {
                let i = choose|i: int| 0 <= i < b0.len() && b0[i] == t;
                assert(b[i] == t);
                assert(text_lt(b[i], b[b.len() - 1]));
                assert(b.to_set().contains(t));
                assert(a.contains(t));
                let j = choose|j: int| 0 <= j < a.len() && a[j] == t;
                assert(a0[j] == t);
            }
        }
        assert(a0.to_set() =~= b0.to_set());
        assert(strictly_ascending(a0)) by {
            assert forall|i: int, j: int| 0 <= i < j < a0.len() implies text_lt(
                #[trigger] a0[i],
                #[trigger] a0[j],
            ) by {
                assert(text_lt(a[i], a[j]));
            }
        }
        assert(strictly_ascending(b0)) by {
            assert forall|i: int, j: int| 0 <= i < j < b0.len() implies text_lt(
                #[trigger] b0[i],
                #[trigger] b0[j],
            ) by {
                assert(text_lt(b[i], b[j]));
            }
        }
        lemma_strictly_ascending_unique(a0, b0);
        assert(a =~= a0.push(x));
        assert(b =~= b0.push(y));
    }
}

/// The texts of a finite set as a list, each before those that come after
/// it.
pub open spec fn in_order(texts: Set<Seq<char>>) -> Seq<Seq<char>> {
    choose|list: Seq<Seq<char>>| strictly_ascending(list) && list.to_set() == texts
}

/// A strictly ascending list is the ordered form of the set of its texts.
pub proof fn lemma_in_order_of_ascending(list: Seq<Seq<char>>)
    requires
        strictly_ascending(list),
    ensures
        in_order(list.to_set()) == list,
{
    lemma_strictly_ascending_unique(in_order(list.to_set()), list);
}

/// A copy of `names`.
pub fn copy_names(names: &Vec<String>) -> (out: Vec<String>)
    ensures
        out.deep_view() == names.deep_view(),
{
    let mut out: Vec<String> = Vec::new();
    let mut i: usize = 0;
    while i < names.len()
        invariant
            i <= names.len(),
            out.len() == i,
            forall|k: int| 0 <= k < i ==> out@[k]@ == names@[k]@,
        decreases names.len() - i,
    {
        out.push(names[i].clone());
        i += 1;
    }
    assert(out.deep_view() =~= names.deep_view());
    out
}

/// The texts of `names` in ascending order, each as often as `names` holds
/// it.
pub open spec fn ordered(names: Seq<Seq<char>>) -> Seq<Seq<char>> {
    names.sort_by(|a: Seq<char>, b: Seq<char>| text_le(a, b))
}

/// An ascending list is the ordered form of every list that holds the same
/// texts as often.
pub proof fn lemma_ascending_is_ordered(list: Seq<Seq<char>>, names: Seq<Seq<char>>)
    requires
        ascending(list),
        list.to_multiset() == names.to_multiset(),
    ensures
        list == ordered(names),
{
    let leq = |a: Seq<char>, b: Seq<char>| text_le(a, b);
    lemma_text_le_is_total_order();
    names.lemma_sort_by_ensures(leq);
    assert(vstd::relations::sorted_by(list, leq)) by {
        assert forall|i: int, j: int| 0 <= i < j < list.len() implies #[trigger] leq(
            list[i],
            list[j],
        ) by {
            assert(text_le(list[i], list[j]));
        }
    }
    vstd::seq_lib::lemma_sorted_unique(list, names.sort_by(leq), leq);
}

/// Putting a list in order neither adds a text nor loses one.
pub proof fn lemma_ordered_holds_the_same(names: Seq<Seq<char>>, name: Seq<char>)
    ensures
        ordered(names).contains(name) == names.contains(name),
{
    let leq = |a: Seq<char>, b: Seq<char>| text_le(a, b);
    lemma_text_le_is_total_order();
    names.lemma_sort_by_ensures(leq);
    names.to_multiset_ensures();
    ordered(names).to_multiset_ensures();
    assert(names.to_multiset().count(name) == ordered(names).to_multiset().count(name));
    assert(names.contains(name) <==> names.to_multiset().count(name) > 0);
    assert(ordered(names).contains(name) <==> ordered(names).to_multiset().count(name) > 0);
}

/// `text_le` is a total order.
pub proof fn lemma_text_le_is_total_order()
    ensures
        vstd::relations::total_ordering(|a: Seq<char>, b: Seq<char>| text_le(a, b)),
{
    let leq = |a: Seq<char>, b: Seq<char>| text_le(a, b);
    assert forall|x: Seq<char>| #[trigger] leq(x, x) by {
        lemma_text_le_reflexive(x);
    }
    assert forall|x: Seq<char>, y: Seq<char>| #[trigger] leq(x, y) && #[trigger] leq(
        y,
        x,
    ) implies x == y by {
        lemma_text_le_antisymmetric(x, y);
    }
    assert forall|x: Seq<char>, y: Seq<char>, z: Seq<char>| #[trigger] leq(x, y) && #[trigger] leq(
        y,
        z,
    ) implies leq(x, z) by {
        lemma_text_le_transitive(x, y, z);
    }
    assert forall|x: Seq<char>, y: Seq<char>| #[trigger] leq(x, y) || #[trigger] leq(y, x) by {
        lemma_text_le_total(x, y);
    }
}

} // verus!
