use skills_manager::lines::{join_of, split_lines};
use skills_manager::order::{insert_ascending, insert_unique, sorted_names, str_le};
use skills_manager::text::{
    chars_of, count_in, find_from, has_infix, has_prefix, has_suffix, lowercase_of, matches_at,
    replace_all, scan_backward, scan_forward, strip_end_of, strip_start_of, trim_of, CharClass,
};

fn text(v: Vec<char>) -> String {
    v.into_iter().collect()
}

fn names(list: &[&str]) -> Vec<String> {
    list.iter().map(|n| n.to_string()).collect()
}

#[test]
fn trim_strips_what_str_trim_strips() {
    for sample in [
        "",
        " ",
        " a ",
        "\t\n a b \r\n",
        "\u{a0}x\u{3000}",
        "\u{2000}\u{200a}y\u{2028}",
        "\u{200b}z\u{200b}",
        "\u{b}\u{c}w\u{85}",
        "\u{1c}v",
        "no-space",
    ] {
        assert_eq!(text(trim_of(&chars_of(sample))), sample.trim(), "{sample:?}");
    }
    for code in 0u32..0x3100 {
        if let Some(c) = char::from_u32(code) {
            assert_eq!(CharClass::Whitespace.test(c), c.is_whitespace(), "{code:x}");
        }
    }
}

#[test]
fn strip_takes_runs_of_one_class() {
    let v = chars_of("//a/b//");
    assert_eq!(text(strip_end_of(&v, CharClass::Exactly('/'))), "//a/b");
    assert_eq!(text(strip_start_of(&v, CharClass::Exactly('/'))), "a/b//");
    assert_eq!(scan_forward(&chars_of(" \t x"), CharClass::Indent, 0), 3);
    assert_eq!(scan_forward(&chars_of(" \t x"), CharClass::Indent, 3), 3);
    assert_eq!(scan_backward(&chars_of("x\r\r"), CharClass::Exactly('\r'), 3), 1);
    assert_eq!(scan_backward(&chars_of("\r\r"), CharClass::Exactly('\r'), 2), 0);
}

#[test]
fn patterns_are_found_where_they_are() {
    let v = chars_of("abcabc");
    assert!(matches_at(&v, &chars_of("bc"), 1));
    assert!(!matches_at(&v, &chars_of("bc"), 2));
    assert!(!matches_at(&v, &chars_of("bc"), 5));
    assert!(!matches_at(&v, &chars_of("bc"), 99));
    assert!(matches_at(&v, &chars_of(""), 6));
    assert!(has_prefix(&v, &chars_of("abc")));
    assert!(!has_prefix(&v, &chars_of("abcabcd")));
    assert!(has_suffix(&v, &chars_of("cabc")));
    assert!(!has_suffix(&v, &chars_of("ab")));
    assert!(has_infix(&v, &chars_of("ca")));
    assert!(has_infix(&v, &chars_of("")));
    assert!(!has_infix(&v, &chars_of("cc")));
    assert_eq!(find_from(&v, 'c', 0), 2);
    assert_eq!(find_from(&v, 'c', 3), 5);
    assert_eq!(find_from(&v, 'x', 0), 6);
    assert_eq!(count_in(&v, 'a'), 2);
    assert_eq!(count_in(&v, 'x'), 0);
}

#[test]
fn replace_goes_left_to_right_without_overlap() {
    let replaced = |s: &str, pat: &str, with: &str| {
        text(replace_all(&chars_of(s), &chars_of(pat), &chars_of(with)))
    };
    for (s, pat, with) in [
        ("a..b", "..", ""),
        ("...", "..", ""),
        ("....", "..", ""),
        ("aaa", "aa", "b"),
        ("it's", "'", "''"),
        ("''''", "''", "'"),
        ("abc", "x", "y"),
        ("", "x", "y"),
        ("xyxy", "xy", "xyxy"),
    ] {
        assert_eq!(replaced(s, pat, with), s.replace(pat, with), "{s:?}");
    }
}

#[test]
fn lower_case_touches_ascii_letters_only() {
    assert_eq!(text(lowercase_of(&chars_of("SKILL.md ÄZ@[`{"))), "skill.md Äz@[`{");
    assert_eq!(
        text(lowercase_of(&chars_of("AbCxyZ09"))),
        "AbCxyZ09".to_ascii_lowercase()
    );
}

#[test]
fn lines_end_at_line_feeds() {
    let lines = |s: &str| -> Vec<String> {
        split_lines(&chars_of(s)).into_iter().map(text).collect()
    };
    assert_eq!(lines(""), Vec::<String>::new());
    assert_eq!(lines("\n"), vec![""]);
    assert_eq!(lines("a"), vec!["a"]);
    assert_eq!(lines("a\n"), vec!["a"]);
    assert_eq!(lines("a\n\nb"), vec!["a", "", "b"]);
    assert_eq!(lines("a\r\nb\r\r\nc\r"), vec!["a", "b", "c"]);
    assert_eq!(lines("a\rb\n"), vec!["a\rb"]);
    assert_eq!(lines("\n\n"), vec!["", ""]);
}

#[test]
fn join_puts_the_separator_between() {
    let joined = |parts: &[&str], sep: &str| {
        text(join_of(&parts.iter().map(|p| chars_of(p)).collect(), &chars_of(sep)))
    };
    assert_eq!(joined(&[], ", "), "");
    assert_eq!(joined(&["a"], ", "), "a");
    assert_eq!(joined(&["a", "", "b"], "\n"), "a\n\nb");
    assert_eq!(joined(&["", ""], "-"), "-");
}

#[test]
fn texts_are_ordered_as_strings_are() {
    let samples = ["", "a", "A", "ab", "b", "aa", "a-2", "a-10", "é", "z", "日本", "a\u{10000}"];
    for a in samples {
        for b in samples {
            assert_eq!(str_le(a, b), a <= b, "{a:?} {b:?}");
        }
    }
}

#[test]
fn names_are_sorted_as_sort_sorts_them() {
    let list = names(&["b", "a", "c", "a", "B", "", "ab", "a-2", "a-10"]);
    let mut expected = list.clone();
    expected.sort();
    assert_eq!(sorted_names(list), expected);
    assert_eq!(sorted_names(vec![]), Vec::<String>::new());
}

#[test]
fn insertion_keeps_the_order() {
    let mut list = names(&["a", "c"]);
    insert_ascending(&mut list, "b".to_string());
    insert_ascending(&mut list, "c".to_string());
    insert_ascending(&mut list, "".to_string());
    assert_eq!(list, vec!["", "a", "b", "c", "c"]);
    let mut set = names(&["a", "c"]);
    insert_unique(&mut set, "b".to_string());
    insert_unique(&mut set, "c".to_string());
    insert_unique(&mut set, "a".to_string());
    insert_unique(&mut set, "d".to_string());
    assert_eq!(set, vec!["a", "b", "c", "d"]);
}
