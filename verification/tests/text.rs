use meilisearch_sdk::text::{
    decimal_text, ends_with, parse_decimal, push_decimal, same_text, starts_with,
};

#[test]
fn same_text_compares_characters() {
    assert!(same_text("", ""));
    assert!(same_text("abc", "abc"));
    assert!(same_text("caf\u{e9}", "caf\u{e9}"));
    assert!(!same_text("abc", "abd"));
    assert!(!same_text("abc", "ab"));
    assert!(!same_text("ab", "abc"));
    assert!(!same_text("caf\u{e9}", "cafe"));
}

#[test]
fn starts_with_agrees_with_std() {
    let cases = [
        ("", ""),
        ("abc", ""),
        ("", "a"),
        ("abc", "ab"),
        ("abc", "abc"),
        ("abc", "abcd"),
        ("abc", "bc"),
        ("h\u{e9}llo", "h\u{e9}"),
        ("h\u{e9}llo", "he"),
        ("\u{1F600}x", "\u{1F600}"),
    ];
    for (text, prefix) in cases.iter() {
        assert_eq!(starts_with(text, prefix), text.starts_with(prefix), "{:?} {:?}", text, prefix);
    }
}

#[test]
fn ends_with_agrees_with_std() {
    let cases = [
        ("", ""),
        ("abc", ""),
        ("", "a"),
        ("abc", "bc"),
        ("abc", "abc"),
        ("abc", "zabc"),
        ("abc", "ab"),
        ("hell\u{e9}", "l\u{e9}"),
        ("hell\u{e9}", "le"),
        ("x\u{1F600}", "\u{1F600}"),
        ("ab\u{e9}", "\u{e9}"),
    ];
    for (text, suffix) in cases.iter() {
        assert_eq!(ends_with(text, suffix), text.ends_with(suffix), "{:?} {:?}", text, suffix);
    }
}

#[test]
fn decimal_text_writes_digits() {
    assert_eq!(decimal_text(0), "0");
    assert_eq!(decimal_text(7), "7");
    assert_eq!(decimal_text(10), "10");
    assert_eq!(decimal_text(42), "42");
    assert_eq!(decimal_text(1234567890), "1234567890");
    assert_eq!(decimal_text(usize::MAX), usize::MAX.to_string());
}

#[test]
fn push_decimal_appends() {
    let mut out = String::from("n=");
    push_decimal(&mut out, 305);
    assert_eq!(out, "n=305");
    push_decimal(&mut out, 0);
    assert_eq!(out, "n=3050");
}

#[test]
fn parse_decimal_reads_what_decimal_text_writes() {
    for n in [0usize, 1, 9, 10, 99, 100, 4096, 1234567890, usize::MAX - 1, usize::MAX].iter() {
        assert_eq!(parse_decimal(&decimal_text(*n)), Some(*n));
    }
}

#[test]
fn parse_decimal_refuses_everything_else() {
    assert_eq!(parse_decimal(""), None);
    assert_eq!(parse_decimal("-1"), None);
    assert_eq!(parse_decimal("+1"), None);
    assert_eq!(parse_decimal("1.0"), None);
    assert_eq!(parse_decimal("1e3"), None);
    assert_eq!(parse_decimal("007"), None);
    assert_eq!(parse_decimal("00"), None);
    assert_eq!(parse_decimal("12a"), None);
    assert_eq!(parse_decimal(" 12"), None);
    assert_eq!(parse_decimal("\u{661}"), None);
    assert_eq!(parse_decimal("0"), Some(0));
}

#[test]
fn parse_decimal_refuses_numbers_that_do_not_fit() {
    let too_large = format!("{}0", usize::MAX);
    assert_eq!(parse_decimal(&too_large), None);
    let next = (usize::MAX as u128 + 1).to_string();
    assert_eq!(parse_decimal(&next), None);
    assert_eq!(parse_decimal("99999999999999999999999999999999999999999"), None);
}
