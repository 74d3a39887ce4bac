use redis_plot::numeric::{is_number, parse_uint};

#[test]
fn parse_uint_reads_decimal() {
    assert_eq!(parse_uint("400"), Some(400));
    assert_eq!(parse_uint("+7"), Some(7));
    assert_eq!(parse_uint("0"), Some(0));
    assert_eq!(parse_uint("18446744073709551615"), Some(usize::MAX));
}

#[test]
fn parse_uint_refuses_other_text() {
    assert_eq!(parse_uint(""), None);
    assert_eq!(parse_uint("+"), None);
    assert_eq!(parse_uint("-1"), None);
    assert_eq!(parse_uint("12a"), None);
    assert_eq!(parse_uint(" 1"), None);
    assert_eq!(parse_uint("18446744073709551616"), None);
}

#[test]
fn parse_uint_agrees_with_std() {
    for s in ["1", "+0", "007", "", "+", "x", "99999999999999999999", "1_0"] {
        assert_eq!(parse_uint(s), s.parse::<usize>().ok(), "{}", s);
    }
}

#[test]
fn number_text_accepts_float_forms() {
    for s in [
        "1", "-1", "+1.5", "3.", ".5", "1e10", "1E-3", "2.5e+7", "inf", "-Infinity", "NaN", "+nan", "0.125",
    ] {
        assert!(is_number(s), "{}", s);
    }
}

#[test]
fn number_text_refuses_other_text() {
    for s in ["", "x", ".", "-", "1e", "e5", "1.2.3", " 1", "1 ", "infinit", "1_0", "0x10", "--1", "1e+"] {
        assert!(!is_number(s), "{}", s);
    }
}

#[test]
fn number_text_agrees_with_f32_parsing() {
    for s in [
        "1", "-1", "+1.5", "3.", ".5", "1e10", "1E-3", "2.5e+7", "inf", "-Infinity", "NaN", "", "x", ".", "1e", "e5",
        "1.2.3", " 1", "infinit", "0x10", "+.e1", "-.5E-0", "iNf", "nan1",
    ] {
        assert_eq!(is_number(s), s.parse::<f32>().is_ok(), "{}", s);
    }
}
