use karaoke_queue::text::{contains, four_digit_code, join_range, push_decimal, split_words, trim_spaces, trim_trailing_dots};

#[test]
fn four_digit_codes_are_zero_padded() {
    assert_eq!(four_digit_code(7), "0007");
    assert_eq!(four_digit_code(0), "0000");
    assert_eq!(four_digit_code(9999), "9999");
    assert_eq!(four_digit_code(1234), "1234");
}

#[test]
fn decimal_notation() {
    let mut s = "n=".to_string();
    push_decimal(&mut s, 0);
    assert_eq!(s, "n=0");
    let mut t = String::new();
    push_decimal(&mut t, 18446744073709551615);
    assert_eq!(t, "18446744073709551615");
    let mut u = String::new();
    push_decimal(&mut u, 100);
    assert_eq!(u, "100");
}

#[test]
fn words_of_text() {
    assert_eq!(split_words("  a bc\t d\n"), vec!["a".to_string(), "bc".to_string(), "d".to_string()]);
    assert!(split_words(" \t ").is_empty());
    assert_eq!(split_words("one"), vec!["one".to_string()]);
}

#[test]
fn joined_ranges() {
    let ws = vec!["a".to_string(), "b".to_string(), "c".to_string()];
    assert_eq!(join_range(&ws, 0, 3), "a b c");
    assert_eq!(join_range(&ws, 1, 2), "b");
    assert_eq!(join_range(&ws, 2, 2), "");
}

#[test]
fn substring_search() {
    assert!(contains("hello world", "o w"));
    assert!(contains("abc", ""));
    assert!(!contains("ab", "abc"));
    assert!(!contains("hello", "hellp"));
}

#[test]
fn trimming() {
    assert_eq!(trim_trailing_dots("host.local.."), "host.local");
    assert_eq!(trim_trailing_dots("..."), "");
    assert_eq!(trim_spaces("  Ann Lee \t"), "Ann Lee");
    assert_eq!(trim_spaces("   "), "");
}
