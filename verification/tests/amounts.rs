use interbank_clearance::{format_amount, parse_amount};

#[test]
fn parse_reads_plain_digits() {
    assert_eq!(parse_amount("0"), Some(0));
    assert_eq!(parse_amount("42"), Some(42));
    assert_eq!(parse_amount("150"), Some(150));
    assert_eq!(parse_amount("1000000000000000000000"), Some(1_000_000_000_000_000_000_000u128));
}

#[test]
fn parse_accepts_leading_zeros_and_one_plus() {
    assert_eq!(parse_amount("007"), Some(7));
    assert_eq!(parse_amount("+42"), Some(42));
    assert_eq!(parse_amount("+0"), Some(0));
}

#[test]
fn parse_reads_the_largest_amount() {
    assert_eq!(parse_amount("340282366920938463463374607431768211455"), Some(u128::MAX));
}

#[test]
fn parse_refuses_what_does_not_fit() {
    assert_eq!(parse_amount("340282366920938463463374607431768211456"), None);
    assert_eq!(parse_amount("3402823669209384634633746074317682114550"), None);
    assert_eq!(parse_amount("999999999999999999999999999999999999999999"), None);
}

#[test]
fn parse_refuses_other_texts() {
    assert_eq!(parse_amount(""), None);
    assert_eq!(parse_amount("+"), None);
    assert_eq!(parse_amount("++1"), None);
    assert_eq!(parse_amount("-1"), None);
    assert_eq!(parse_amount("12a"), None);
    assert_eq!(parse_amount("1 2"), None);
    assert_eq!(parse_amount(" 12"), None);
    assert_eq!(parse_amount("1.5"), None);
    assert_eq!(parse_amount("1+"), None);
    assert_eq!(parse_amount("٣"), None);
    assert_eq!(parse_amount("１２"), None);
}

#[test]
fn parse_agrees_with_the_standard_parser() {
    let texts = [
        "0", "1", "+1", "-1", "", "+", "00", "18446744073709551616", "abc", "12 ", "+-1",
        "340282366920938463463374607431768211455", "340282366920938463463374607431768211456",
    ];
    for text in texts {
        assert_eq!(parse_amount(text), text.parse::<u128>().ok(), "text {:?}", text);
    }
}

#[test]
fn format_writes_decimal_without_padding() {
    assert_eq!(format_amount(0), "0");
    assert_eq!(format_amount(7), "7");
    assert_eq!(format_amount(10), "10");
    assert_eq!(format_amount(1050), "1050");
    assert_eq!(format_amount(155), "155");
    assert_eq!(format_amount(u128::MAX), "340282366920938463463374607431768211455");
}

#[test]
fn format_agrees_with_the_standard_formatter() {
    let amounts = [0u128, 1, 9, 10, 99, 100, 101, 12345678901234567890, u128::MAX - 1, u128::MAX];
    for amount in amounts {
        assert_eq!(format_amount(amount), amount.to_string());
    }
}

#[test]
fn format_then_parse_gives_the_amount_back() {
    let amounts = [0u128, 5, 42, 150, 1 << 64, (1 << 127) + 3, u128::MAX];
    for amount in amounts {
        assert_eq!(parse_amount(&format_amount(amount)), Some(amount));
    }
}
