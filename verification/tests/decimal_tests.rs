use primality::decimal::{decimal_string, parse_u64, push_decimal};

#[test]
fn parse_reads_plain_numerals() {
    assert_eq!(parse_u64("0"), Some(0));
    assert_eq!(parse_u64("7"), Some(7));
    assert_eq!(parse_u64("17"), Some(17));
    assert_eq!(parse_u64("18"), Some(18));
    assert_eq!(parse_u64("100"), Some(100));
    assert_eq!(parse_u64("1234567890"), Some(1_234_567_890));
}

#[test]
fn parse_accepts_a_leading_plus_sign() {
    assert_eq!(parse_u64("+5"), Some(5));
    assert_eq!(parse_u64("+0"), Some(0));
    assert_eq!(parse_u64("+18446744073709551615"), Some(u64::MAX));
}

#[test]
fn parse_accepts_leading_zeros() {
    assert_eq!(parse_u64("007"), Some(7));
    assert_eq!(parse_u64("0000000000000000000000000000000000000042"), Some(42));
    assert_eq!(parse_u64("+00"), Some(0));
}

#[test]
fn parse_rejects_the_empty_text() {
    assert_eq!(parse_u64(""), None);
}

#[test]
fn parse_rejects_a_sign_alone() {
    assert_eq!(parse_u64("+"), None);
    assert_eq!(parse_u64("-"), None);
}

#[test]
fn parse_rejects_a_minus_sign() {
    assert_eq!(parse_u64("-5"), None);
    assert_eq!(parse_u64("-0"), None);
}

#[test]
fn parse_rejects_text_that_is_not_a_number() {
    assert_eq!(parse_u64("abc"), None);
    assert_eq!(parse_u64("notanumber"), None);
    assert_eq!(parse_u64("12a"), None);
    assert_eq!(parse_u64("a12"), None);
    assert_eq!(parse_u64("1 2"), None);
    assert_eq!(parse_u64(" 5"), None);
    assert_eq!(parse_u64("5 "), None);
    assert_eq!(parse_u64("5\n"), None);
    assert_eq!(parse_u64("1_000"), None);
    assert_eq!(parse_u64("1.0"), None);
    assert_eq!(parse_u64("1e3"), None);
    assert_eq!(parse_u64("0x10"), None);
    assert_eq!(parse_u64("++5"), None);
    assert_eq!(parse_u64("+-5"), None);
    assert_eq!(parse_u64("5+"), None);
}

#[test]
fn parse_rejects_characters_next_to_the_digits_in_the_code_table() {
    assert_eq!(parse_u64("/"), None);
    assert_eq!(parse_u64(":"), None);
    assert_eq!(parse_u64("1/"), None);
    assert_eq!(parse_u64("1:"), None);
}

#[test]
fn parse_rejects_text_outside_ascii() {
    assert_eq!(parse_u64("１２"), None);
    assert_eq!(parse_u64("٣"), None);
    assert_eq!(parse_u64("12é"), None);
    assert_eq!(parse_u64("+七"), None);
    assert_eq!(parse_u64("17 ✅"), None);
}

#[test]
fn parse_stops_at_the_largest_value() {
    assert_eq!(parse_u64("18446744073709551615"), Some(u64::MAX));
    assert_eq!(parse_u64("18446744073709551614"), Some(u64::MAX - 1));
    assert_eq!(parse_u64("18446744073709551616"), None);
    assert_eq!(parse_u64("18446744073709551620"), None);
    assert_eq!(parse_u64("28446744073709551615"), None);
    assert_eq!(parse_u64("184467440737095516150"), None);
    assert_eq!(parse_u64("99999999999999999999999999999999"), None);
    assert_eq!(parse_u64("000018446744073709551615"), Some(u64::MAX));
}

#[test]
fn parse_agrees_with_the_standard_reader() {
    let texts: Vec<&str> = vec![
        "", "0", "1", "9", "10", "+", "-", "+1", "-1", "+0", "00", "0010", "18446744073709551615",
        "18446744073709551616", "1844674407370955161", "abc", "1a", "a1", " 1", "1 ", "+ 1",
        "٣", "１", "1_0", "0x1", "1e1", "++1", "+-1", "4294967296", "9223372036854775808",
    ];
    for t in texts {
        assert_eq!(parse_u64(t), t.parse::<u64>().ok(), "reading {:?}", t);
    }
}

#[test]
fn decimal_string_writes_exact_digits() {
    assert_eq!(decimal_string(0), "0");
    assert_eq!(decimal_string(1), "1");
    assert_eq!(decimal_string(9), "9");
    assert_eq!(decimal_string(10), "10");
    assert_eq!(decimal_string(17), "17");
    assert_eq!(decimal_string(100), "100");
    assert_eq!(decimal_string(109), "109");
    assert_eq!(decimal_string(1_234_567_890), "1234567890");
    assert_eq!(decimal_string(u64::MAX), "18446744073709551615");
}

#[test]
fn decimal_string_agrees_with_the_standard_writer() {
    let mut n: u64 = 0;
    let mut count = 0;
    while count < 3_000 {
        assert_eq!(decimal_string(n), n.to_string());
        n = n.saturating_add(n / 3 + 1);
        count += 1;
    }
    for n in 0..2_000u64 {
        assert_eq!(decimal_string(n), n.to_string());
    }
}

#[test]
fn push_decimal_appends_to_what_is_there() {
    let mut out = String::from("n = ");
    push_decimal(&mut out, 42);
    assert_eq!(out, "n = 42");
    push_decimal(&mut out, 0);
    assert_eq!(out, "n = 420");
    push_decimal(&mut out, 1_000);
    assert_eq!(out, "n = 4201000");
}

#[test]
fn reading_what_was_written_gives_the_number_back() {
    let numbers: Vec<u64> = vec![
        0, 1, 9, 10, 99, 100, 101, 65_535, 4_294_967_295, 4_294_967_296, 1_000_000_007,
        u64::MAX - 1, u64::MAX,
    ];
    for n in numbers {
        assert_eq!(parse_u64(&decimal_string(n)), Some(n));
    }
}
