use xcc_bridge::decimal::{is_decimal_text, parse_decimal, push_decimal, to_decimal};

#[test]
fn decimal_text_of_numbers() {
    assert_eq!(to_decimal(0), "0");
    assert_eq!(to_decimal(7), "7");
    assert_eq!(to_decimal(10), "10");
    assert_eq!(to_decimal(1_002_003), "1002003");
    assert_eq!(to_decimal(u64::MAX), "18446744073709551615");
}

#[test]
fn push_decimal_appends() {
    let mut text = String::from("nonce ");
    push_decimal(&mut text, 42);
    assert_eq!(text, "nonce 42");
    push_decimal(&mut text, 0);
    assert_eq!(text, "nonce 420");
}

#[test]
fn parse_decimal_reads_digits_only() {
    assert_eq!(parse_decimal("0"), Some(0));
    assert_eq!(parse_decimal("007"), Some(7));
    assert_eq!(parse_decimal("18446744073709551615"), Some(u64::MAX));
    assert_eq!(parse_decimal("18446744073709551616"), None);
    assert_eq!(parse_decimal("99999999999999999999999"), None);
    assert_eq!(parse_decimal(""), None);
    assert_eq!(parse_decimal("+1"), None);
    assert_eq!(parse_decimal("-1"), None);
    assert_eq!(parse_decimal("1 "), None);
    assert_eq!(parse_decimal("1_000"), None);
    assert_eq!(parse_decimal("0x10"), None);
    assert_eq!(parse_decimal("\u{0661}"), None);
}

#[test]
fn is_decimal_text_does_not_look_at_the_size() {
    assert!(is_decimal_text("0"));
    assert!(is_decimal_text("18446744073709551616"));
    assert!(!is_decimal_text(""));
    assert!(!is_decimal_text("12a"));
    assert!(!is_decimal_text("\u{ff11}"));
}

#[test]
fn decimal_round_trip() {
    for n in [0u64, 1, 9, 10, 99, 100, 12345, u64::MAX - 1, u64::MAX] {
        assert_eq!(parse_decimal(&to_decimal(n)), Some(n));
        assert_eq!(to_decimal(n), n.to_string());
    }
}
