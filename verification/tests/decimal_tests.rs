use mailbox_sync::decimal::{parse_i64, parse_usize, usize_text};

#[test]
fn parse_i64_reads_signed_decimal_numbers() {
    assert_eq!(parse_i64("0"), Some(0));
    assert_eq!(parse_i64("100"), Some(100));
    assert_eq!(parse_i64("+100"), Some(100));
    assert_eq!(parse_i64("-100"), Some(-100));
    assert_eq!(parse_i64("-0"), Some(0));
    assert_eq!(parse_i64("007"), Some(7));
    assert_eq!(parse_i64("9223372036854775807"), Some(i64::MAX));
    assert_eq!(parse_i64("-9223372036854775808"), Some(i64::MIN));
    assert_eq!(parse_i64("-9223372036854775807"), Some(i64::MIN + 1));
    assert_eq!(parse_i64("00000000000000000000000000000000000001"), Some(1));
}

#[test]
fn parse_i64_rejects_everything_else() {
    for s in [
        "",
        "+",
        "-",
        "--1",
        "+-1",
        " 1",
        "1 ",
        "1_000",
        "1.0",
        "1e3",
        "0x10",
        "١٢٣",
        "12a",
        "a12",
        "9223372036854775808",
        "-9223372036854775809",
        "18446744073709551616",
        "99999999999999999999999999999999",
        "-99999999999999999999999999999999",
    ] {
        assert_eq!(parse_i64(s), None, "{:?}", s);
    }
}

#[test]
fn parse_i64_agrees_with_std() {
    let samples = [
        "", "0", "-0", "+0", "1", "-1", "+1", "12", "1234567890", "9223372036854775806",
        "9223372036854775807", "9223372036854775808", "9223372036854775809",
        "-9223372036854775807", "-9223372036854775808", "-9223372036854775809",
        "92233720368547758070", "18446744073709551615", "18446744073709551616", "+", "-", "x",
        "1x", "x1", "1-", "1+", "++1", " 1", "0009223372036854775807",
    ];
    for s in samples {
        assert_eq!(parse_i64(s), s.parse::<i64>().ok(), "{:?}", s);
    }
}

#[test]
fn parse_usize_reads_unsigned_decimal_numbers() {
    assert_eq!(parse_usize("0"), Some(0));
    assert_eq!(parse_usize("20"), Some(20));
    assert_eq!(parse_usize("+20"), Some(20));
    assert_eq!(parse_usize("-20"), None);
    assert_eq!(parse_usize("-0"), None);
    assert_eq!(parse_usize(""), None);
    assert_eq!(parse_usize("+"), None);
    assert_eq!(parse_usize("2 0"), None);
    assert_eq!(parse_usize(&usize::MAX.to_string()), Some(usize::MAX));
    assert_eq!(parse_usize("340282366920938463463374607431768211456"), None);
}

#[test]
fn parse_usize_agrees_with_std() {
    let samples = [
        "", "0", "-0", "+0", "1", "-1", "+1", "4294967295", "4294967296", "18446744073709551614",
        "18446744073709551615", "18446744073709551616", "184467440737095516150", "+", "-", "1x",
        "0018446744073709551615",
    ];
    for s in samples {
        assert_eq!(parse_usize(s), s.parse::<usize>().ok(), "{:?}", s);
    }
}

#[test]
fn usize_text_writes_decimal_digits() {
    assert_eq!(usize_text(0), "0");
    assert_eq!(usize_text(7), "7");
    assert_eq!(usize_text(10), "10");
    assert_eq!(usize_text(1234567890), "1234567890");
    assert_eq!(usize_text(usize::MAX), usize::MAX.to_string());
    for n in [1usize, 9, 11, 99, 100, 101, 999, 1000, 65535, 65536, 4294967295] {
        assert_eq!(usize_text(n), n.to_string());
        assert_eq!(parse_usize(&usize_text(n)), Some(n));
    }
}
