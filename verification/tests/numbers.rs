use tds::byte_order::{push_u16, push_u32, read_u16, read_u32};
use tds::lex_order::{is_equal, is_less};
use tds::decimal::{parse_digits, parse_i64, push_decimal, push_signed_decimal};
use tds::text::{ascii_bytes, starts_with};

#[test]
fn decimal_numerals() {
    let text = |n: u64| {
        let mut out = vec![b'>'];
        push_decimal(&mut out, n);
        String::from_utf8(out).unwrap()
    };
    assert_eq!(text(0), ">0");
    assert_eq!(text(9), ">9");
    assert_eq!(text(10), ">10");
    assert_eq!(text(1800), ">1800");
    assert_eq!(text(u64::MAX), ">18446744073709551615");
    let signed = |n: i64| {
        let mut out = Vec::new();
        push_signed_decimal(&mut out, n);
        String::from_utf8(out).unwrap()
    };
    assert_eq!(signed(0), "0");
    assert_eq!(signed(-1), "-1");
    assert_eq!(signed(i64::MIN), "-9223372036854775808");
    assert_eq!(signed(i64::MAX), "9223372036854775807");
    for n in [1u64, 99, 100, 12345678901234567890] {
        assert_eq!(text(n), format!(">{}", n));
    }
}

#[test]
fn reading_numerals() {
    assert_eq!(parse_digits(b"x123y", 1, 4, 1000), Some(123));
    assert_eq!(parse_digits(b"123", 0, 3, 123), Some(123));
    assert_eq!(parse_digits(b"123", 0, 3, 122), None);
    assert_eq!(parse_digits(b"123", 1, 1, 122), None);
    assert_eq!(parse_digits(b"12a", 0, 3, 1000), None);
    assert_eq!(parse_digits(b"000", 0, 3, 0), Some(0));
    assert_eq!(parse_digits(b"18446744073709551615", 0, 20, u64::MAX), Some(u64::MAX));
    assert_eq!(parse_digits(b"18446744073709551616", 0, 20, u64::MAX), None);
    assert_eq!(parse_digits(b"99999999999999999999999999", 0, 26, u64::MAX), None);
    let int = |s: &str| parse_i64(s.as_bytes(), 0, s.len());
    for s in [
        "0",
        "-0",
        "+0",
        "42",
        "-42",
        "+42",
        "0042",
        "9223372036854775807",
        "9223372036854775808",
        "-9223372036854775808",
        "-9223372036854775809",
        "",
        "-",
        "+",
        "--1",
        "+-1",
        "1-",
        " 1",
        "1 ",
        "1e3",
        "0x10",
    ] {
        assert_eq!(int(s), s.parse::<i64>().ok());
    }
}

#[test]
fn numbers_in_network_order() {
    let mut out = Vec::new();
    push_u16(&mut out, 0x0102);
    push_u32(&mut out, 0x03040506);
    assert_eq!(out, vec![1, 2, 3, 4, 5, 6]);
    assert_eq!(read_u16(&out, 0), 0x0102);
    assert_eq!(read_u32(&out, 2), 0x03040506);
    assert_eq!(read_u32(&[0xff; 4], 0), u32::MAX);
    assert_eq!(read_u16(&[0xff; 2], 0), u16::MAX);
    for n in [0u32, 1, 255, 256, 65535, 65536, 0x01000000, u32::MAX] {
        let mut out = Vec::new();
        push_u32(&mut out, n);
        assert_eq!(out, n.to_be_bytes().to_vec());
        assert_eq!(read_u32(&out, 0), n);
    }
}

#[test]
fn byte_strings_in_order() {
    assert!(is_less(b"", b"a"));
    assert!(is_less(b"a", b"b"));
    assert!(is_less(b"a", b"aa"));
    assert!(is_less(b"aa", b"b"));
    assert!(is_less(b"info", b"name"));
    assert!(is_less(&[0x7f], &[0x80]));
    assert!(!is_less(b"a", b"a"));
    assert!(!is_less(b"b", b"a"));
    assert!(!is_less(b"aa", b"a"));
    assert!(!is_less(b"", b""));
    assert!(is_equal(b"", b""));
    assert!(is_equal(b"abc", b"abc"));
    assert!(!is_equal(b"abc", b"abd"));
    assert!(!is_equal(b"abc", b"ab"));
}

#[test]
fn text_as_bytes() {
    assert_eq!(ascii_bytes("info"), b"info".to_vec());
    assert_eq!(ascii_bytes(""), Vec::<u8>::new());
    assert!(starts_with(b"http://x", b"http://"));
    assert!(starts_with(b"http://", b"http://"));
    assert!(starts_with(b"x", b""));
    assert!(!starts_with(b"http:/", b"http://"));
    assert!(!starts_with(b"xhttp://", b"http://"));
}
