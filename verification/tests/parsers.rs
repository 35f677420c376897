//! The keep and skip parsers on whole documents.

use sjq::json_value::{JsonValue, NumberVal};
use sjq::parse_and_keep::keep_json;
use sjq::parse_and_throw::throw_json;

fn chars(s: &str) -> Vec<char> {
    s.chars().collect()
}

fn num(v: i64) -> JsonValue {
    JsonValue::Number(NumberVal::Integer(v))
}

fn text(s: &str) -> JsonValue {
    JsonValue::String(s.to_string())
}

#[test]
fn parse_and_keep_parse_short_complex() {
    let expr = r#"{"pomme" : { "taille" :          12345,   "couleur": "jaune" },
        "random_array": [1, 2, 3    , "word" ]}"#;
    let expected = JsonValue::Object(vec![
        (
            "pomme".to_string(),
            JsonValue::Object(vec![
                ("taille".to_string(), num(12345)),
                ("couleur".to_string(), text("jaune")),
            ]),
        ),
        (
            "random_array".to_string(),
            JsonValue::Array(vec![num(1), num(2), num(3), text("word")]),
        ),
    ]);

    let s = chars(expr);
    let (v, end) = keep_json(&s, 0, 1000, s.len() + 1).unwrap();
    assert_eq!(v, expected);
    assert_eq!(end, s.len());
}

#[test]
fn parse_and_throw_parse_short_complex() {
    let expr = r#"{"pomme" : { "taille" :          12345,   "couleur": "jaune" },
        "random_array": [1, 2, 3    , "word" ]}"#;

    let s = chars(expr);
    let end = throw_json(&s, 0, 1000, s.len() + 1).unwrap();
    assert_eq!(end, s.len());
}

#[test]
fn keep_and_throw_agree_on_rejection() {
    for bad in ["{", "[1,", "\"unterminated", "{\"a\" 1}", "tru", "{]", ""] {
        let s = chars(bad);
        let kept = keep_json(&s, 0, 1000, s.len() + 1);
        let thrown = throw_json(&s, 0, 1000, s.len() + 1);
        assert!(kept.is_err());
        assert_eq!(kept.unwrap_err(), thrown.unwrap_err());
    }
}

#[test]
fn rejection_points_at_the_offending_token() {
    // The member's value is missing: the parser points at the brace where a
    // value was expected.
    let s = chars("{\"a\": }");
    assert_eq!(keep_json(&s, 0, 1000, s.len() + 1).unwrap_err(), 6);
    // The separator is missing: the parser points at the second key.
    let s = chars("{\"a\":1 \"b\":2}");
    assert_eq!(keep_json(&s, 0, 1000, s.len() + 1).unwrap_err(), 7);
    // The colon is missing: the parser points at where it was expected.
    let s = chars("{\"a\" 1}");
    assert_eq!(keep_json(&s, 0, 1000, s.len() + 1).unwrap_err(), 5);
}

#[test]
fn keep_and_throw_agree_on_extent() {
    for good in ["null", "true", "false", "[]", "{}", "[1, [2, {}]] ", "\"x\" junk"] {
        let s = chars(good);
        let (_, kend) = keep_json(&s, 0, 1000, s.len() + 1).unwrap();
        let tend = throw_json(&s, 0, 1000, s.len() + 1).unwrap();
        assert_eq!(kend, tend);
    }
}

#[test]
fn keep_normalizes_stored_text() {
    // The decomposed "e with a combining acute" is stored composed.
    let s = chars("\"e\u{0301}\"");
    let (v, _) = keep_json(&s, 0, 100, s.len() + 1).unwrap();
    assert_eq!(v, JsonValue::String("\u{00e9}".to_string()));
}
