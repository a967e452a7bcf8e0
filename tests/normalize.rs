use propstamp::normalize::flatten_multi_to_win_fmt;
use propstamp::text::{parse_decimal, trim_bounds, white_space};

fn norm(tokens: &[&str]) -> Option<String> {
    let v: Vec<String> = tokens.iter().map(|t| t.to_string()).collect();
    flatten_multi_to_win_fmt(Some(&v))
}

#[test]
fn blank_and_colon_only_tokens_are_dropped() {
    assert_eq!(norm(&[" ", "a::b", ""]), Some("a:b".to_string()));
    assert_eq!(norm(&[":", " : ", "x"]), Some("x".to_string()));
}

#[test]
fn mixed_case_is_folded() {
    assert_eq!(norm(&["Action", "DRAMA"]), Some("action:drama".to_string()));
    assert_eq!(norm(&["ÉCOLE"]), Some("école".to_string()));
}

#[test]
fn no_tokens_is_absent() {
    assert_eq!(flatten_multi_to_win_fmt(None), None);
}

#[test]
fn blank_tokens_give_empty_value() {
    assert_eq!(norm(&[]), Some(String::new()));
    assert_eq!(norm(&["", "   ", "\t"]), Some(String::new()));
}

#[test]
fn normalizing_twice_changes_nothing() {
    let once = norm(&[" Sci-Fi ", "Space: Opera ::", "Drama"]).unwrap();
    assert_eq!(once, "sci-fi:space:opera:drama");
    assert_eq!(norm(&[once.as_str()]), Some(once.clone()));
}

#[test]
fn pieces_are_trimmed_and_order_kept() {
    assert_eq!(norm(&["  B  ", " c : A "]), Some("b:c:a".to_string()));
}

#[test]
fn token_without_colon_keeps_inner_space() {
    assert_eq!(norm(&["  Science Fiction  "]), Some("science fiction".to_string()));
}

#[test]
fn unicode_white_space_is_trimmed() {
    assert_eq!(norm(&["\u{3000}X\u{a0}"]), Some("x".to_string()));
    assert!(white_space('\u{2028}'));
    assert!(!white_space('a'));
}

#[test]
fn trim_bounds_of_padded_text() {
    assert_eq!(trim_bounds("  ab ", 0, 5), (2, 4));
    assert_eq!(trim_bounds("   ", 0, 3).0, trim_bounds("   ", 0, 3).1);
}

#[test]
fn decimal_numbers_are_read() {
    assert_eq!(parse_decimal("2021"), Some(2021));
    assert_eq!(parse_decimal("+7"), Some(7));
    assert_eq!(parse_decimal("0"), Some(0));
    assert_eq!(parse_decimal("4294967295"), Some(u32::MAX));
}

#[test]
fn malformed_numbers_are_absent() {
    assert_eq!(parse_decimal(""), None);
    assert_eq!(parse_decimal("+"), None);
    assert_eq!(parse_decimal("-1"), None);
    assert_eq!(parse_decimal("12a"), None);
    assert_eq!(parse_decimal(" 12"), None);
    assert_eq!(parse_decimal("1.5"), None);
    assert_eq!(parse_decimal("4294967296"), None);
    assert_eq!(parse_decimal("99999999999999999999"), None);
}
