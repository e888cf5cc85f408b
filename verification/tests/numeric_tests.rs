use inker::numeric::{format_i32, parse_bool, parse_i32, parse_u16};

#[test]
fn parse_u16_accepts_digits_and_plus() {
    assert_eq!(parse_u16("8080"), Some(8080));
    assert_eq!(parse_u16("+5"), Some(5));
    assert_eq!(parse_u16("007"), Some(7));
    assert_eq!(parse_u16("65535"), Some(65535));
}

#[test]
fn parse_u16_rejects_what_std_rejects() {
    assert_eq!(parse_u16(""), None);
    assert_eq!(parse_u16("+"), None);
    assert_eq!(parse_u16("-1"), None);
    assert_eq!(parse_u16("65536"), None);
    assert_eq!(parse_u16(" 1"), None);
    assert_eq!(parse_u16("1a"), None);
}

#[test]
fn parse_u16_agrees_with_std() {
    for s in ["0", "+0", "12", "99999", "", "+", "-", "abc", "65535", "65536", "+65535"] {
        assert_eq!(parse_u16(s), s.parse::<u16>().ok(), "{}", s);
    }
}

#[test]
fn parse_i32_accepts_signs() {
    assert_eq!(parse_i32("4"), Some(4));
    assert_eq!(parse_i32("-4"), Some(-4));
    assert_eq!(parse_i32("+4"), Some(4));
    assert_eq!(parse_i32("-2147483648"), Some(i32::MIN));
    assert_eq!(parse_i32("2147483647"), Some(i32::MAX));
}

#[test]
fn parse_i32_rejects_what_std_rejects() {
    for s in ["", "-", "+", "2147483648", "-2147483649", "--1", "4.0", "x"] {
        assert_eq!(parse_i32(s), None, "{}", s);
        assert_eq!(s.parse::<i32>().ok(), None, "{}", s);
    }
}

#[test]
fn parse_bool_exact_words() {
    assert_eq!(parse_bool("true"), Some(true));
    assert_eq!(parse_bool("false"), Some(false));
    assert_eq!(parse_bool("True"), None);
    assert_eq!(parse_bool("yes"), None);
    assert_eq!(parse_bool(""), None);
}

#[test]
fn format_i32_writes_decimal() {
    assert_eq!(format_i32(0), "0");
    assert_eq!(format_i32(12), "12");
    assert_eq!(format_i32(-42), "-42");
    assert_eq!(format_i32(i32::MIN), "-2147483648");
    assert_eq!(format_i32(i32::MAX), "2147483647");
}

#[test]
fn format_then_parse_gives_back_the_number() {
    for n in [0, 1, -1, 9, 10, 99, 100, -100, 12345, i32::MIN, i32::MAX] {
        assert_eq!(parse_i32(&format_i32(n)), Some(n));
    }
}
