use rush::number::{decimal_string, pad_left, parse_i32};

#[test]
fn decimal_digits() {
    assert_eq!(decimal_string(0), "0");
    assert_eq!(decimal_string(7), "7");
    assert_eq!(decimal_string(10), "10");
    assert_eq!(decimal_string(1234567), "1234567");
}

#[test]
fn pad_left_right_aligns() {
    assert_eq!(pad_left(&String::from("7"), 5), "    7");
    assert_eq!(pad_left(&String::from("12345"), 5), "12345");
    assert_eq!(pad_left(&String::from("123456"), 5), "123456");
    assert_eq!(pad_left(&String::from(""), 2), "  ");
}

#[test]
fn parse_reads_signed_numbers() {
    assert_eq!(parse_i32("42"), Some(42));
    assert_eq!(parse_i32("-42"), Some(-42));
    assert_eq!(parse_i32("+7"), Some(7));
    assert_eq!(parse_i32("007"), Some(7));
    assert_eq!(parse_i32("2147483647"), Some(i32::MAX));
    assert_eq!(parse_i32("-2147483648"), Some(i32::MIN));
}

#[test]
fn parse_rejects_what_from_str_radix_rejects() {
    for s in ["", "-", "+", "2147483648", "-2147483649", "12a", " 1", "1 ", "--1", "99999999999999999999", "١"] {
        assert_eq!(parse_i32(s), None, "{:?}", s);
        assert!(i32::from_str_radix(s, 10).is_err());
    }
}

#[test]
fn parse_agrees_with_from_str_radix() {
    for s in ["0", "-0", "+0", "123", "-2147483648", "2147483647", "x", "", "+-1"] {
        assert_eq!(parse_i32(s), i32::from_str_radix(s, 10).ok(), "{:?}", s);
    }
}

#[test]
fn written_counts_read_back() {
    for n in [0usize, 1, 9, 10, 99, 100, 65535, 2147483647] {
        assert_eq!(parse_i32(&decimal_string(n)), Some(n as i32));
    }
}
