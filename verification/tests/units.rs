//! The paths, filters and values, piece by piece.

use sjq::args_parser::validate_max_text_length;
use sjq::filter::{ArrayFilter, BranchFilter, Filter, FilterPart};
use sjq::json_path::{JsonPath, JsonPathStep};
use sjq::json_value::{JsonValue, NumberVal};

fn num(v: i64) -> JsonValue {
    JsonValue::Number(NumberVal::Integer(v))
}

#[test]
fn path_push_and_pop_round_trip() {
    let mut p = JsonPath::root();
    assert_eq!(p.len(), 0);
    p.push_field("a");
    p.push_index(0);
    assert_eq!(p.len(), 2);
    p.inc_index();
    p.inc_index();
    assert_eq!(
        p.iter().as_slice(),
        &[
            JsonPathStep::Field("a".to_string()),
            JsonPathStep::Index(2),
        ]
    );
    p.pop_index();
    p.pop_field();
    assert_eq!(p.len(), 0);
}

#[test]
fn filter_matches_exact_paths_only() {
    let f = Filter::Parts(vec![
        FilterPart::Branch(BranchFilter::TextMatch("a".to_string())),
        FilterPart::Array(ArrayFilter::Range(0, 3)),
    ]);
    let mut p = JsonPath::root();
    assert!(!f.is_match(&p));
    assert!(f.is_subpath(&p));
    p.push_field("a");
    assert!(!f.is_match(&p));
    assert!(f.is_subpath(&p));
    p.push_index(2);
    assert!(f.is_match(&p));
    assert!(f.is_subpath(&p));
    p.pop_index();
    p.push_index(3);
    assert!(!f.is_match(&p));
    p.pop_index();
    p.push_field("b");
    assert!(!f.is_match(&p));
    assert!(!f.is_subpath(&p));
}

#[test]
fn filter_union_accepts_either_branch() {
    let f = Filter::Union(vec![
        Filter::Parts(vec![FilterPart::Branch(BranchFilter::TextMatch("a".to_string()))]),
        Filter::Parts(vec![FilterPart::Array(ArrayFilter::ExactValue(1))]),
    ]);
    let mut p = JsonPath::root();
    p.push_field("a");
    assert!(f.is_match(&p));
    p.pop_field();
    p.push_index(1);
    assert!(f.is_match(&p));
    p.pop_index();
    p.push_index(0);
    assert!(!f.is_match(&p));
}

#[test]
fn filter_one_of_checks_membership() {
    let f = ArrayFilter::OneOf(vec![2, 5, 7]);
    assert!(f.is_match(5));
    assert!(!f.is_match(4));
}

#[test]
fn select_walks_fields_and_indices() {
    let doc = JsonValue::Object(vec![
        (
            "a".to_string(),
            JsonValue::Array(vec![num(10), num(20)]),
        ),
        ("b".to_string(), num(3)),
    ]);
    let mut p = JsonPath::root();
    p.push_field("a");
    p.push_index(1);
    assert_eq!(doc.select(&p), Some(&num(20)));
    let mut q = JsonPath::root();
    q.push_field("missing");
    assert_eq!(doc.select(&q), None);
    assert_eq!(doc.select(&JsonPath::root()), Some(&doc));
}

#[test]
fn select_takes_the_last_duplicate_field()  {
    let doc = JsonValue::Object(vec![
        ("a".to_string(), num(1)),
        ("a".to_string(), num(2)),
    ]);
    let mut p = JsonPath::root();
    p.push_field("a");
    assert_eq!(doc.select(&p), Some(&num(2)));
}

#[test]
fn number_addition_coerces_like_the_stages() {
    let two = NumberVal::Integer(2);
    let three = NumberVal::Integer(3);
    assert_eq!(two.plus(three), NumberVal::Integer(5));
    let half = NumberVal::Float(0.5f64.to_bits());
    assert_eq!(two.plus(half), NumberVal::Float(2.5f64.to_bits()));
    assert_eq!(half.plus(two), NumberVal::Float(2.5f64.to_bits()));
    assert_eq!(
        half.plus(half),
        NumberVal::Float(1.0f64.to_bits())
    );
}

#[test]
fn max_text_length_must_cover_numbers() {
    assert!(validate_max_text_length(4096).is_ok());
    assert!(validate_max_text_length(328).is_ok());
    assert!(validate_max_text_length(327).is_err());
}

#[test]
fn normalized_string_composes() {
    assert_eq!(
        JsonValue::normalized_string("e\u{0301}"),
        JsonValue::String("\u{00e9}".to_string())
    );
}
