use boulder_relay::order::sort_by_lowercase;
use boulder_relay::text::{
    contains_text, decimal_text, eq_ignore_ascii_case, join_from, remove_all, split_fields, trim,
};

#[test]
fn trimming_unicode_whitespace() {
    assert_eq!(trim("\u{3000}\t a b \u{2028}\n"), "a b");
    assert_eq!(trim(""), "");
    assert_eq!(trim(" \u{85} "), "");
    assert_eq!(trim("\u{200b}x"), "\u{200b}x");
}

#[test]
fn sorting_ignores_case_and_is_stable() {
    let names = vec![String::from("Bob"), String::from("alice"), String::from("bob"), String::from("Carl")];
    assert_eq!(sort_by_lowercase(&names), vec!["alice", "Bob", "bob", "Carl"]);
    let empty: Vec<String> = vec![];
    assert!(sort_by_lowercase(&empty).is_empty());
    let unicode = vec![String::from("Ärger"), String::from("ärger0")];
    assert_eq!(sort_by_lowercase(&unicode), vec!["Ärger", "ärger0"]);
}

#[test]
fn splitting_and_joining() {
    assert_eq!(split_fields("a||b|", Some('|')), vec!["a", "b"]);
    assert_eq!(split_fields("  x \t y ", None), vec!["x", "y"]);
    assert!(split_fields("", None).is_empty());
    let parts = vec![String::from("a"), String::from("b"), String::from("c")];
    assert_eq!(join_from(&parts, 0, '|'), "a|b|c");
    assert_eq!(join_from(&parts, 1, ' '), "b c");
    assert_eq!(join_from(&parts, 3, ' '), "");
}

#[test]
fn small_text_helpers() {
    assert!(contains_text("hello world", "o w"));
    assert!(contains_text("abc", ""));
    assert!(!contains_text("ab", "abc"));
    assert!(eq_ignore_ascii_case("NiCk", "nick"));
    assert!(!eq_ignore_ascii_case("nick", "nicks"));
    assert_eq!(decimal_text(0), "0");
    assert_eq!(decimal_text(1207), "1207");
    let l = vec![String::from("a"), String::from("b"), String::from("a")];
    assert_eq!(remove_all(&l, "a"), vec!["b"]);
}
