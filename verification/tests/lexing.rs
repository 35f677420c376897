//! The lexical layer: strings, numbers and identifiers.

use sjq::json_value::NumberVal;
use sjq::parse_basics::{ident_expr, number_expr, string_expr};

fn chars(s: &str) -> Vec<char> {
    s.chars().collect()
}

#[test]
fn parse_string() {
    let expected = vec![
        "guillotine",
        "UpPeR",
        "Text with spaces and ponctuation ? WOW, such text !",
    ];

    for e in expected {
        let expr = format!("\"{}\"", e);
        let s = chars(&expr);
        let (content, end) = string_expr(&s, 0, 1000).unwrap();
        assert_eq!(content.iter().collect::<String>(), e.to_string());
        assert_eq!(end, s.len());
    }
}

#[test]
fn parse_integer() {
    let expected = vec![0i64, 1i64, 9i64, 10i64, 123456789i64, -1i64, -1345601i64];

    for e in expected {
        let expr = e.to_string();
        let s = chars(&expr);
        let (n, end) = number_expr(&s, 0).unwrap();
        assert_eq!(n, NumberVal::Integer(e));
        assert_eq!(end, s.len());
    }
}

#[test]
fn parse_float() {
    let expected = vec![
        0.1f64,
        1.1f64,
        10.12345f64,
        3.3333f64,
        -0.1f64,
        -134560.2f64,
    ];

    for e in expected {
        let expr = e.to_string();
        let s = chars(&expr);
        let (n, end) = number_expr(&s, 0).unwrap();
        assert_eq!(n, NumberVal::Float(e.to_bits()));
        assert_eq!(end, s.len());
    }
}

#[test]
fn parse_float_with_exponent() {}

#[test]
fn parse_ident() {
    let expected = vec!["abc", "askMe", "Mask", "number1"];

    for e in expected {
        let s = chars(e);
        let (name, end) = ident_expr(&s, 0, 100).unwrap();
        assert_eq!(name.iter().collect::<String>(), e.to_string());
        assert_eq!(end, s.len());
    }
}

#[test]
fn float_exponents_read_as_doubles() {
    for (text, value) in [("1e3", 1e3f64), ("2.5E-2", 2.5e-2f64), ("-1.25e12", -1.25e12f64)] {
        let s = chars(text);
        let (n, end) = number_expr(&s, 0).unwrap();
        assert_eq!(n, NumberVal::Float(value.to_bits()));
        assert_eq!(end, s.len());
    }
}

#[test]
fn number_overflow_is_refused() {
    // Past the range of a signed 64-bit integer, without a fraction or an
    // exponent, the number is refused rather than truncated.
    let s = chars("9223372036854775808");
    assert!(number_expr(&s, 0).is_none());
    let ok = chars("9223372036854775807");
    let (n, _) = number_expr(&ok, 0).unwrap();
    assert_eq!(n, NumberVal::Integer(i64::MAX));
    let neg = chars("-9223372036854775808");
    let (n, _) = number_expr(&neg, 0).unwrap();
    assert_eq!(n, NumberVal::Integer(i64::MIN));
}

#[test]
fn string_length_bound_is_enforced() {
    let s = chars("\"abcdef\"");
    assert!(string_expr(&s, 0, 5).is_none());
    assert!(string_expr(&s, 0, 6).is_some());
}

#[test]
fn string_escape_yields_the_escaped_character() {
    let s = chars("\"a\\\"b\\\\c\"");
    let (content, _) = string_expr(&s, 0, 100).unwrap();
    assert_eq!(content.iter().collect::<String>(), "a\"b\\c".to_string());
}
