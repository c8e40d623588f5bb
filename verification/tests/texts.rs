use polly::names::{
    comes_before, copy_optional, copy_texts, find_text, holds_text, insert_sorted,
};
use polly::text::{
    chars_equal, chars_of, contains_chars, digit_to_char, ends_with_chars, matches_at, pad_left,
    position_of, push_decimal, push_padded_decimal, push_str, slice_chars, starts_with_chars,
    str_contains, str_equal, str_starts_with, str_trim, strip_outer_brackets, strip_trailing,
    trim_chars,
};

fn cs(s: &str) -> Vec<char> {
    s.chars().collect()
}

fn list(items: &[&str]) -> Vec<String> {
    items.iter().map(|s| s.to_string()).collect()
}

#[test]
fn characters_of_a_text_in_order() {
    assert_eq!(chars_of("a평b"), vec!['a', '평', 'b']);
    assert_eq!(chars_of(""), Vec::<char>::new());
    let mut out = vec!['x'];
    push_str(&mut out, "yz");
    push_str(&mut out, "");
    assert_eq!(out, vec!['x', 'y', 'z']);
}

#[test]
fn numbers_are_written_in_decimal() {
    let mut out = Vec::new();
    push_decimal(&mut out, 0);
    out.push(' ');
    push_decimal(&mut out, 9);
    out.push(' ');
    push_decimal(&mut out, 10);
    out.push(' ');
    push_decimal(&mut out, 1_234_567_890);
    out.push(' ');
    push_decimal(&mut out, u128::MAX);
    assert_eq!(
        out.iter().collect::<String>(),
        "0 9 10 1234567890 340282366920938463463374607431768211455"
    );
    let mut out = Vec::new();
    push_padded_decimal(&mut out, 42, 6);
    out.push(' ');
    push_padded_decimal(&mut out, 1_234_567, 6);
    out.push(' ');
    push_padded_decimal(&mut out, 7, 0);
    out.push(' ');
    push_padded_decimal(&mut out, 0, 3);
    assert_eq!(out.iter().collect::<String>(), "000042 234567  000");
    assert_eq!(digit_to_char(0), '0');
    assert_eq!(digit_to_char(5), '5');
    assert_eq!(digit_to_char(9), '9');
}

#[test]
fn searches_find_runs_of_characters() {
    assert!(str_contains("공휴일", "휴일"));
    assert!(str_contains("abc", ""));
    assert!(str_contains("", ""));
    assert!(!str_contains("", "a"));
    assert!(!str_contains("ab", "abc"));
    assert!(str_contains("aab", "ab"));
    assert!(!str_contains("abab", "bb"));
    assert!(contains_chars(&cs("xyz"), &cs("z")));
    assert!(matches_at(&cs("xyz"), &cs("yz"), 1));
    assert!(!matches_at(&cs("xyz"), &cs("yz"), 0));
    assert!(matches_at(&cs("xyz"), &cs(""), 3));
    assert!(str_starts_with("34-1(평일)", "34-1"));
    assert!(str_starts_with("34", ""));
    assert!(!str_starts_with("34", "341"));
    assert!(!str_starts_with("134", "34"));
    assert!(starts_with_chars(&cs("ab"), &cs("ab")));
    assert!(ends_with_chars(&cs("a.json"), &cs(".json")));
    assert!(!ends_with_chars(&cs("a.jsonx"), &cs(".json")));
    assert!(!ends_with_chars(&cs("on"), &cs(".json")));
    assert!(str_equal("평일", "평일"));
    assert!(!str_equal("평일", "평"));
    assert!(!str_equal("ab", "ba"));
    assert!(str_equal("", ""));
    assert!(chars_equal(&cs("ab"), &cs("ab")));
    assert!(!chars_equal(&cs("ab"), &cs("ac")));
}

#[test]
fn first_place_of_a_character() {
    assert_eq!(position_of(&cs("a:b:c"), ':', 0), 1);
    assert_eq!(position_of(&cs("a:b:c"), ':', 1), 1);
    assert_eq!(position_of(&cs("a:b:c"), ':', 2), 3);
    assert_eq!(position_of(&cs("a:b:c"), ':', 4), 5);
    assert_eq!(position_of(&cs("a:b:c"), ':', 5), 5);
    assert_eq!(position_of(&cs(""), ':', 0), 0);
    assert_eq!(slice_chars(&cs("hello"), 1, 3), cs("el"));
    assert_eq!(slice_chars(&cs("hello"), 5, 5), cs(""));
    assert_eq!(slice_chars(&cs("hello"), 0, 5), cs("hello"));
}

#[test]
fn ends_are_stripped() {
    assert_eq!(strip_trailing(&cs("터미널발"), '발'), cs("터미널"));
    assert_eq!(strip_trailing(&cs("발터발발"), '발'), cs("발터"));
    assert_eq!(strip_trailing(&cs("발발"), '발'), cs(""));
    assert_eq!(strip_trailing(&cs("abc"), '발'), cs("abc"));
    assert_eq!(strip_trailing(&cs(""), '발'), cs(""));
    assert_eq!(strip_outer_brackets(&cs("(평일)")), cs("평일"));
    assert_eq!(strip_outer_brackets(&cs("((a)(b))")), cs("a)(b"));
    assert_eq!(strip_outer_brackets(&cs("4-1(평일)")), cs("4-1(평일"));
    assert_eq!(strip_outer_brackets(&cs(")(")), cs(""));
    assert_eq!(strip_outer_brackets(&cs("")), cs(""));
    assert_eq!(strip_outer_brackets(&cs("ab")), cs("ab"));
}

#[test]
fn short_texts_are_padded_on_the_left() {
    assert_eq!(pad_left(&cs("6"), 2, '0'), cs("06"));
    assert_eq!(pad_left(&cs(""), 2, '0'), cs("00"));
    assert_eq!(pad_left(&cs("12"), 2, '0'), cs("12"));
    assert_eq!(pad_left(&cs("123"), 2, '0'), cs("123"));
    assert_eq!(pad_left(&cs("a"), 4, ' '), cs("   a"));
    assert_eq!(pad_left(&cs("a"), 0, ' '), cs("a"));
}

#[test]
fn texts_are_found_in_a_list() {
    let names = list(&["b", "a", "b"]);
    assert_eq!(find_text(&names, &cs("b")), 0);
    assert_eq!(find_text(&names, &cs("a")), 1);
    assert_eq!(find_text(&names, &cs("c")), 3);
    assert_eq!(find_text(&Vec::new(), &cs("c")), 0);
    assert!(holds_text(&names, &cs("a")));
    assert!(!holds_text(&names, &cs("")));
    assert_eq!(copy_texts(&names), names);
    assert_eq!(copy_optional(&Some("x".to_string())), Some("x".to_string()));
    assert_eq!(copy_optional(&None), None);
}

#[test]
fn texts_are_ordered_by_their_characters() {
    assert!(comes_before(&cs("a"), &cs("b")));
    assert!(!comes_before(&cs("b"), &cs("a")));
    assert!(!comes_before(&cs("a"), &cs("a")));
    assert!(comes_before(&cs(""), &cs("a")));
    assert!(!comes_before(&cs("a"), &cs("")));
    assert!(!comes_before(&cs(""), &cs("")));
    assert!(comes_before(&cs("ab"), &cs("abc")));
    assert!(comes_before(&cs("Z"), &cs("a")));
    assert!(comes_before(&cs("abd"), &cs("ac")));
    assert!(comes_before(&cs("시청"), &cs("역")));
    assert!(comes_before(&cs("z"), &cs("가")));
    for (a, b) in [("시청", "역"), ("a", "B"), ("", "x"), ("터미널", "터미"), ("10", "9")] {
        assert_eq!(comes_before(&cs(a), &cs(b)), a < b);
        assert_eq!(comes_before(&cs(b), &cs(a)), b < a);
    }
}

#[test]
fn sorted_insertion_keeps_order_and_adds_nothing_twice() {
    let mut names: Vec<String> = Vec::new();
    for n in ["m", "c", "x", "c", "a", "z", "m", ""] {
        insert_sorted(&mut names, n);
    }
    assert_eq!(names, list(&["", "a", "c", "m", "x", "z"]));
    let mut sorted = names.clone();
    sorted.sort();
    assert_eq!(names, sorted);
}

#[test]
fn white_space_is_trimmed_at_both_ends() {
    assert_eq!(str_trim(" A "), "A");
    assert_eq!(str_trim("\t\n 터미널 발 \r\n"), "터미널 발");
    assert_eq!(str_trim("\u{A0}\u{3000}a b\u{2003}"), "a b");
    assert_eq!(str_trim("   "), "");
    assert_eq!(str_trim(""), "");
    assert_eq!(str_trim("ab"), "ab");
    assert_eq!(str_trim("\u{200B}a"), "\u{200B}a");
    assert_eq!(trim_chars(&cs("  x  y  ")), cs("x  y"));
    for text in [" A ", "\u{A0}a\u{1680}", "\u{85}b c\u{2028}", "\u{FEFF}d ", "", " \u{3000} "] {
        assert_eq!(str_trim(text), text.trim());
    }
}
