use starpoint_service::counts::{contains_text, Counts};
use starpoint_service::text::{
    append_decimal, append_hex, contains_char, decimal_string, ends_with, is_control,
    is_whitespace_char, join, parse_i64, starts_with, str_eq, str_lt, strip_prefix, strip_suffix,
    trim,
};

#[test]
fn decimal_text_round_trips() {
    for n in [0_i64, 7, -7, 1_234_567, i64::MAX, i64::MIN] {
        assert_eq!(decimal_string(n), n.to_string());
        assert_eq!(parse_i64(&decimal_string(n)), Some(n));
    }
    let mut s = String::from("x=");
    append_decimal(&mut s, -42);
    assert_eq!(s, "x=-42");
}

#[test]
fn parsing_follows_rust_integers() {
    assert_eq!(parse_i64("+5"), Some(5));
    assert_eq!(parse_i64("007"), Some(7));
    assert_eq!(parse_i64(""), None);
    assert_eq!(parse_i64("-"), None);
    assert_eq!(parse_i64("1 "), None);
    assert_eq!(parse_i64("9223372036854775808"), None);
    assert_eq!(parse_i64("-9223372036854775808"), Some(i64::MIN));
}

#[test]
fn prefixes_and_suffixes() {
    assert!(str_eq("a", "a") && !str_eq("a", "b"));
    assert!(starts_with("/v1/mails", "/v1"));
    assert!(!starts_with("/v", "/v1"));
    assert!(ends_with("x/mails", "/mails"));
    assert_eq!(strip_prefix("/v1/x", "/v1/"), Some("x"));
    assert_eq!(strip_prefix("/v2/x", "/v1/"), None);
    assert_eq!(strip_suffix("a/mails", "/mails"), Some("a"));
    assert!(contains_char("a/b", '/'));
    assert!(!contains_char("ab", '/'));
}

#[test]
fn trimming_and_character_classes() {
    assert_eq!(trim("  a b \t\n"), "a b");
    assert_eq!(trim("\u{3000}x\u{3000}"), "x");
    assert_eq!(trim("   "), "");
    assert!(is_whitespace_char('\u{85}'));
    assert!(!is_whitespace_char('a'));
    assert!(is_control('\u{7f}'));
    assert!(!is_control(' '));
}

#[test]
fn hex_order_and_joins() {
    let mut s = String::new();
    append_hex(&mut s, &[0x00, 0xab, 0x7f]);
    assert_eq!(s, "00ab7f");
    assert!(str_lt("Devil", "Dragon"));
    assert!(!str_lt("b", "a"));
    assert!(str_lt("", "a"));
    assert_eq!(join(&vec!["a".to_string(), "b".to_string(), "c".to_string()], "+"), "a+b+c");
    assert_eq!(join(&vec![], ","), "");
}

#[test]
fn counts_keep_the_last_value() {
    let mut c = Counts::new();
    c.insert("a".to_string(), 1);
    c.insert("b".to_string(), 2);
    c.insert("a".to_string(), 3);
    assert_eq!(c.get("a"), Some(3));
    assert_eq!(c.get("b"), Some(2));
    assert_eq!(c.get("z"), None);
    assert!(c.contains_key("b"));
    assert_eq!(c.get_or_zero("z"), 0);
    assert!(contains_text(&vec!["x".to_string()], "x"));
    assert!(!contains_text(&vec![], "x"));
}

#[test]
fn parsing_reads_back_decimal_text() {
    for n in [-1_000_000_i64, -1, 0, 9, 10, 99, 100, 4_294_967_296] {
        assert_eq!(parse_i64(&decimal_string(n)), Some(n));
    }
}
