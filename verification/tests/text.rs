use silo::pattern::{contains_chars, find_in, find_in_from, lines_of, matches_at, split_by};
use silo::text::{
    char_is_space, chars_of, decimal_of, same_chars, slice_of, string_of, to_lowercase,
};
use silo::words::{
    count_words, is_blank_chars, join_with, split_whitespace, trim_chars,
};

fn cs(s: &str) -> Vec<char> {
    s.chars().collect()
}

fn strings(v: Vec<Vec<char>>) -> Vec<String> {
    v.into_iter().map(|w| w.into_iter().collect()).collect()
}

#[test]
fn white_space_is_what_the_standard_library_takes_for_it() {
    for code in 0..=0x10ffffu32 {
        if let Some(c) = char::from_u32(code) {
            assert_eq!(char_is_space(c), c.is_whitespace(), "U+{:04X}", code);
        }
    }
}

#[test]
fn texts_go_to_characters_and_back() {
    assert_eq!(chars_of("aé隐\u{1F600}"), vec!['a', 'é', '隐', '\u{1F600}']);
    assert_eq!(string_of(&cs("aé隐\u{1F600}")), "aé隐\u{1F600}");
    assert!(chars_of("").is_empty());
    assert_eq!(string_of(&vec![]), "");
}

#[test]
fn lower_case_follows_unicode() {
    assert_eq!(to_lowercase(&cs("HeLLo ÄÖ Σ")), cs("hello äö σ"));
    assert_eq!(to_lowercase(&cs("ὈΔΥΣΣΕΎΣ")), cs("ὀδυσσεύς"));
    assert_eq!(to_lowercase(&cs("İ")), cs("i\u{307}"));
    assert!(to_lowercase(&cs("")).is_empty());
}

#[test]
fn numbers_are_written_in_decimal() {
    assert_eq!(decimal_of(0), cs("0"));
    assert_eq!(decimal_of(7), cs("7"));
    assert_eq!(decimal_of(10), cs("10"));
    assert_eq!(decimal_of(1_234_567_890), cs("1234567890"));
    assert_eq!(decimal_of(usize::MAX), cs(&usize::MAX.to_string()));
}

#[test]
fn slices_and_equality_of_characters() {
    let v = cs("abcdef");
    assert_eq!(slice_of(&v, 2, 4), cs("cd"));
    assert_eq!(slice_of(&v, 0, 6), v);
    assert!(slice_of(&v, 3, 3).is_empty());
    assert!(same_chars(&cs("abc"), &cs("abc")));
    assert!(!same_chars(&cs("abc"), &cs("abd")));
    assert!(!same_chars(&cs("abc"), &cs("ab")));
    assert!(same_chars(&cs(""), &cs("")));
}

#[test]
fn words_are_parted_by_white_space() {
    assert_eq!(strings(split_whitespace(&cs("  a bc\t\nd  "))), vec!["a", "bc", "d"]);
    assert!(split_whitespace(&cs(" \n ")).is_empty());
    assert!(split_whitespace(&cs("")).is_empty());
    assert_eq!(strings(split_whitespace(&cs("one"))), vec!["one"]);
    assert_eq!(count_words(&cs("  a bc\t\nd  ")), 3);
    assert_eq!(count_words(&cs("")), 0);
    assert_eq!(count_words(&cs("x")), 1);
    for text in ["a  b", " lead", "trail ", "隐私 优先\u{3000}本地", "a\u{a0}b\u{2009}c"] {
        let expected: Vec<&str> = text.split_whitespace().collect();
        assert_eq!(strings(split_whitespace(&cs(text))), expected);
        assert_eq!(count_words(&cs(text)), expected.len());
    }
}

#[test]
fn joining_puts_the_separator_between_neighbours() {
    let parts = vec![cs("a"), cs(""), cs("bc")];
    assert_eq!(join_with(&parts, &cs(", ")), cs("a, , bc"));
    assert_eq!(join_with(&vec![cs("x")], &cs("--")), cs("x"));
    assert!(join_with(&vec![], &cs("--")).is_empty());
}

#[test]
fn trimming_takes_white_space_from_both_ends_only() {
    assert_eq!(trim_chars(&cs(" \t a b \n ")), cs("a b"));
    assert_eq!(trim_chars(&cs("a")), cs("a"));
    assert!(trim_chars(&cs(" \n\t ")).is_empty());
    assert!(trim_chars(&cs("")).is_empty());
    assert!(is_blank_chars(&cs(" \n\t ")));
    assert!(is_blank_chars(&cs("")));
    assert!(!is_blank_chars(&cs(" x ")));
}

#[test]
fn finding_gives_the_first_place() {
    let text = cs("abcabcab");
    assert_eq!(find_in(&text, &cs("bc")), Some(1));
    assert_eq!(find_in_from(&text, &cs("bc"), 2), Some(4));
    assert_eq!(find_in_from(&text, &cs("bc"), 5), None);
    assert_eq!(find_in(&text, &cs("abcabcab")), Some(0));
    assert_eq!(find_in(&text, &cs("abcabcabc")), None);
    assert_eq!(find_in(&text, &cs("")), Some(0));
    assert_eq!(find_in_from(&text, &cs(""), 8), Some(8));
    assert_eq!(find_in_from(&text, &cs(""), 9), None);
    assert_eq!(find_in(&cs(""), &cs("a")), None);
    assert!(matches_at(&text, &cs("cab"), 5));
    assert!(!matches_at(&text, &cs("cab"), 6));
    assert!(!matches_at(&text, &cs("ab"), 100));
    assert!(contains_chars(&text, &cs("ca")));
    assert!(!contains_chars(&text, &cs("ba")));
    assert!(contains_chars(&cs("我将搜索相关文档"), &cs("搜索")));
}

#[test]
fn splitting_goes_from_left_to_right() {
    assert_eq!(strings(split_by(&cs("a,b,,c"), &cs(","))), vec!["a", "b", "", "c"]);
    assert_eq!(strings(split_by(&cs("a\n\n\nb"), &cs("\n\n"))), vec!["a", "\nb"]);
    assert_eq!(strings(split_by(&cs("aaa"), &cs("aa"))), vec!["", "a"]);
    assert_eq!(strings(split_by(&cs(""), &cs(","))), vec![""]);
    assert_eq!(strings(split_by(&cs(","), &cs(","))), vec!["", ""]);
    assert_eq!(strings(split_by(&cs("abc"), &cs("x"))), vec!["abc"]);
    for (text, sep) in [("a--b--", "--"), ("--", "-"), ("x. y. z", ". ")] {
        let expected: Vec<&str> = text.split(sep).collect();
        assert_eq!(strings(split_by(&cs(text), &cs(sep))), expected);
    }
}

#[test]
fn lines_end_at_line_feeds() {
    for text in [
        "", "a", "a\n", "a\nb", "a\n\nb\n", "\n", "\n\n", "a\r\nb\r\n", "a\rb", "a\r", "\r\n",
        "a\r\r\nb", "x\n\r",
    ] {
        let expected: Vec<&str> = text.lines().collect();
        assert_eq!(strings(lines_of(&cs(text))), expected, "{:?}", text);
    }
}
