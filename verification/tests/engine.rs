//! Whole runs: query in, stream in, lines out.

use sjq::args_parser::ArgStruct;
use sjq::error::{InitError, PipelineError};
use sjq::parse_from_args;
use sjq::parse_smart::StreamError;
use sjq::RunError;

fn args_for(query: &str) -> ArgStruct {
    ArgStruct {
        output: None,
        append: false,
        force_new: false,
        pretty: false,
        max_text_length: 4096,
        query: query.to_string(),
    }
}

fn run(query: &str, input: &str) -> Result<Vec<String>, RunError> {
    let chars: Vec<char> = input.chars().collect();
    parse_from_args(&args_for(query), &chars)
}

fn run_pretty(query: &str, input: &str) -> Result<Vec<String>, RunError> {
    let mut args = args_for(query);
    args.pretty = true;
    let chars: Vec<char> = input.chars().collect();
    parse_from_args(&args, &chars)
}

#[test]
fn it_parses_simple_stream() {
    let input = " {\"abc\": 1}\n{\"arthur\"      :\"pomme\", \"1\":1   }{\"command_name\":\"achat groupé de pommes\",\"quantity\":123456780,\"commentary\":\"Mangez des pommes !\",\"detail\" :  { \"client\" :\"Jacques Chirac\", \"cash\":   true,\"random_numbers\": [1, 0, 0.1, -1, \"fake it's not a number]\"]}}";
    let lines = run(".", input).unwrap();
    assert_eq!(lines.len(), 3);
    assert_eq!(lines[0], "{\"abc\":1}");
    assert_eq!(lines[1], "{\"arthur\":\"pomme\",\"1\":1}");
    assert_eq!(
        lines[2],
        "{\"command_name\":\"achat groupé de pommes\",\"quantity\":123456780,\"commentary\":\"Mangez des pommes !\",\"detail\":{\"client\":\"Jacques Chirac\",\"cash\":true,\"random_numbers\":[1,0,0.1,-1,\"fake it's not a number]\"]}}"
    );
}

#[test]
fn it_accepts_pipes_in_query() {
    let syntaxes = [".abc|mean .", ".abc |mean .", ".abc| mean .", ".abc | mean ."];

    for syntax in syntaxes.iter() {
        let lines = run(
            syntax,
            "{\"abc\": 1}{\"abc\": 2}{\"abc\": -1.1}{\"abc\": 1234}{\"abc\": -34.837}",
        )
        .unwrap();
        assert_eq!(lines, vec!["240.2126".to_string()]);
    }
}

#[test]
fn it_selects_correct_field_on_pipelined_stream() {
    let lines = run(
        ". | mean .a.b",
        "{\"a\": {\"b\": 1, \"a\": 10000}}{\"b\": -10000, \"a\": {\"b\": -1.1}}{\"a\": {\"b\": 1234}}{\"a\": {\"b\": 2}}{\"a\": {\"b\": -34.837}}",
    )
    .unwrap();
    assert_eq!(lines, vec!["240.2126".to_string()]);
}

#[test]
fn identity_pass_reproduces_the_values() {
    let lines = run(".", "{\"abc\":1}\n{\"arthur\":\"pomme\",\"1\":1}").unwrap();
    assert_eq!(
        lines,
        vec![
            "{\"abc\":1}".to_string(),
            "{\"arthur\":\"pomme\",\"1\":1}".to_string(),
        ]
    );
}

#[test]
fn field_filter_keeps_only_matches() {
    let lines = run(".a", "{\"a\":1}{\"a\":2}{\"b\":3}").unwrap();
    assert_eq!(lines, vec!["1".to_string(), "2".to_string()]);
}

#[test]
fn impossible_filter_is_a_no_op() {
    let input = "{\"a\": {\"b\": [1, 2, {\"c\": null}]}} [false, \"x\"] 3";
    let lines = run(".nothing_has_this_name", input).unwrap();
    assert_eq!(lines, Vec::<String>::new());
}

#[test]
fn union_branch_order_does_not_change_what_is_kept() {
    let input = "{\"a\":1}{\"b\":2}{\"c\":3}";
    let one_way = run(".a,.b", input).unwrap();
    let other_way = run(".b,.a", input).unwrap();
    assert_eq!(one_way, vec!["1".to_string(), "2".to_string()]);
    assert_eq!(one_way, other_way);
}

#[test]
fn sum_of_nothing_is_a_zero_integer() {
    let lines = run(". | sum .", "").unwrap();
    assert_eq!(lines, vec!["0".to_string()]);
}

#[test]
fn mean_of_nothing_is_nothing() {
    let lines = run(". | mean .", "").unwrap();
    assert_eq!(lines, Vec::<String>::new());
}

#[test]
fn sum_of_integers_stays_an_integer() {
    let lines = run(".n | sum .", "{\"n\":1}{\"n\":2}{\"n\":39}").unwrap();
    assert_eq!(lines, vec!["42".to_string()]);
}

#[test]
fn sum_with_a_double_becomes_a_double() {
    let lines = run(".n | sum .", "{\"n\":1}{\"n\":0.5}").unwrap();
    assert_eq!(lines, vec!["1.5".to_string()]);
}

#[test]
fn select_drops_values_without_the_path() {
    let lines = run(". | select .a", "{\"a\":5}{\"b\":1}{\"a\":[7]}").unwrap();
    assert_eq!(lines, vec!["5".to_string(), "[7]".to_string()]);
}

#[test]
fn add_field_sets_and_overwrites() {
    let lines = run(
        ". | add_field \"k\" \"v\"",
        "{\"a\":1}{\"k\":\"old\",\"b\":2}",
    )
    .unwrap();
    assert_eq!(
        lines,
        vec![
            "{\"a\":1,\"k\":\"v\"}".to_string(),
            "{\"b\":2,\"k\":\"v\"}".to_string(),
        ]
    );
}

#[test]
fn add_field_refuses_a_non_object() {
    let err = run(". | add_field \"k\" \"v\"", "[1]").unwrap_err();
    match err {
        RunError::Stream(StreamError::Pipe(PipelineError::NotAnObject { value: _ })) => {}
        other => panic!("unexpected error: {}", other.message()),
    }
}

#[test]
fn mean_refuses_a_value_that_is_no_number() {
    let err = run(". | mean .a", "{\"a\":\"x\"}").unwrap_err();
    match err {
        RunError::Stream(StreamError::Pipe(PipelineError::NotANumber { .. })) => {}
        other => panic!("unexpected error: {}", other.message()),
    }
}

#[test]
fn array_index_filters() {
    let input = "[10, 20, 30]";
    assert_eq!(run("[1]", input).unwrap(), vec!["20".to_string()]);
    assert_eq!(
        run("[0,2]", input).unwrap(),
        vec!["10".to_string(), "30".to_string()]
    );
    assert_eq!(
        run("[0:2]", input).unwrap(),
        vec!["10".to_string(), "20".to_string()]
    );
}

#[test]
fn regex_branches_match_by_search() {
    let input = "{\"alpha\":1,\"beta\":2,\"gamma\":3}";
    let lines = run("./^.l/", input).unwrap();
    assert_eq!(lines, vec!["1".to_string()]);
}

#[test]
fn nested_filters_descend() {
    let input = "{\"a\":{\"b\":1},\"c\":{\"b\":2}}{\"a\":{\"b\":3}}";
    let lines = run(".a.b", input).unwrap();
    assert_eq!(lines, vec!["1".to_string(), "3".to_string()]);
}

#[test]
fn keys_are_compared_normalized() {
    // The input key is decomposed, the query key composed: NFC makes them
    // the same name.
    let input = "{\"e\u{0301}\":7}";
    let lines = run(".\"\u{00e9}\"", input).unwrap();
    assert_eq!(lines, vec!["7".to_string()]);
}

#[test]
fn bad_query_reports_a_syntax_error() {
    let err = run("##", "{}").unwrap_err();
    match err {
        RunError::Init(InitError::WrongQuerySyntax { position: 0 }) => {}
        other => panic!("unexpected error: {}", other.message()),
    }
    // The second union branch is malformed: the error points at it, not at
    // the start of the filter.
    let err = run(".a,##", "{}").unwrap_err();
    match err {
        RunError::Init(InitError::WrongQuerySyntax { position: 3 }) => {}
        other => panic!("unexpected error: {}", other.message()),
    }
}

#[test]
fn unknown_stage_is_reported_by_name() {
    let err = run(". | frobnicate .", "{}").unwrap_err();
    match &err {
        RunError::Init(InitError::StageUnknownName { unknown_name }) => {
            assert_eq!(unknown_name, "frobnicate");
        }
        other => panic!("unexpected error: {}", other.message()),
    }
    assert_eq!(err.message(), "unknown stage : frobnicate");
}

#[test]
fn wrong_stage_arity_is_reported() {
    let err = run(". | sum", "{}").unwrap_err();
    match err {
        RunError::Init(InitError::StageWrongNumberArgs {
            expected: 1,
            got: 0,
            ..
        }) => {}
        other => panic!("unexpected error: {}", other.message()),
    }
}

#[test]
fn wrong_stage_argument_type_is_reported() {
    let err = run(". | sum 3", "{}").unwrap_err();
    match err {
        RunError::Init(InitError::StageWrongArgType { arg_pos: 0, .. }) => {}
        other => panic!("unexpected error: {}", other.message()),
    }
}

#[test]
fn bad_input_reports_a_stream_error() {
    let err = run(".", "{\"a\": }").unwrap_err();
    match err {
        // The value after the colon is missing: the error points at the
        // closing brace, where a value was expected.
        RunError::Stream(StreamError::Syntax { position: 6 }) => {}
        other => panic!("unexpected error: {}", other.message()),
    }
}

#[test]
fn nested_input_errors_point_inside() {
    // The offending token sits deep inside the second value.
    let err = run(".", "{\"a\":1} {\"b\":[1,x]}").unwrap_err();
    match err {
        RunError::Stream(StreamError::Syntax { position: 16 }) => {}
        other => panic!("unexpected error: {}", other.message()),
    }
}

#[test]
fn output_strings_are_escaped() {
    let lines = run(".", "\"a\\\"b\"").unwrap();
    assert_eq!(lines, vec!["\"a\\\"b\"".to_string()]);
}

#[test]
fn pretty_mode_indents_containers() {
    let lines = run_pretty(".", "{\"a\":[1,2],\"b\":{}}").unwrap();
    assert_eq!(
        lines,
        vec!["{\n  \"a\": [\n    1,\n    2\n  ],\n  \"b\": {}\n}".to_string()]
    );
}

#[test]
fn doubles_render_with_their_shortest_digits() {
    // A double is rendered with the fewest significant digits that read
    // back as the same double; a whole-number double therefore takes the
    // exponent form rather than pretending to more digits than it carries.
    let lines = run(".", "0.1 1e3 -2.5").unwrap();
    assert_eq!(
        lines,
        vec!["0.1".to_string(), "1.0E+3".to_string(), "-2.5".to_string()]
    );
}

#[test]
fn duplicate_keys_walked_in_order_but_selected_last() {
    // The selective parser visits each occurrence of a duplicated field, in
    // document order; a lookup into a kept object resolves to the last one.
    let lines = run(".a", "{\"a\":1,\"a\":2}").unwrap();
    assert_eq!(lines, vec!["1".to_string(), "2".to_string()]);
    let selected = run(". | select .a", "{\"a\":1,\"a\":2}").unwrap();
    assert_eq!(selected, vec!["2".to_string()]);
}
