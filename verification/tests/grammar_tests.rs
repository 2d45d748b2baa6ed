use lrol::decimal::{parse_integer, Decimal};
use lrol::error::{
    get_error_position, position_at, syntax_error, to_parser_error, SyntaxFailure, SyntaxIssue,
};
use lrol::types::{Aggregation, EvaluationType, Value};
use lrol::{parse_str, LrolParser, ParserError};

fn chars(input: &str) -> Vec<char> {
    input.chars().collect()
}

fn dec(text: &str) -> Decimal {
    Decimal::parse(text).unwrap()
}

fn failure(offset: usize, issue: SyntaxIssue) -> SyntaxFailure {
    SyntaxFailure { offset, issue }
}

fn syntax(result: Result<lrol::LrolModel, ParserError>) -> (usize, usize, String) {
    match result {
        Err(ParserError::InvalidSyntax { line, column, message }) => (line, column, message),
        other => panic!("expected a syntax error, got {:?}", other),
    }
}

#[test]
fn string_is_read_up_to_the_closing_quote() {
    let text = chars("\"abc\" rest");
    assert_eq!(LrolParser::parse_string(&text, 0), Ok((5, "abc".to_string())));
}

#[test]
fn string_keeps_what_is_no_quote() {
    let text = chars("\"a\\n {é}\"");
    let (next, content) = LrolParser::parse_string(&text, 0).unwrap();
    assert_eq!(next, text.len());
    assert_eq!(content, "a\\n {é}");
}

#[test]
fn empty_string_is_refused() {
    let text = chars("\"\"");
    assert_eq!(
        LrolParser::parse_string(&text, 0),
        Err(failure(1, SyntaxIssue::StringContent))
    );
}

#[test]
fn unclosed_string_is_refused_at_the_end() {
    let text = chars("\"abc");
    assert_eq!(
        LrolParser::parse_string(&text, 0),
        Err(failure(4, SyntaxIssue::Expected('"')))
    );
    assert_eq!(
        LrolParser::parse_string(&chars("abc"), 0),
        Err(failure(0, SyntaxIssue::Expected('"')))
    );
    assert_eq!(
        LrolParser::parse_string(&chars("\""), 0),
        Err(failure(1, SyntaxIssue::StringContent))
    );
}

#[test]
fn numbers_are_read_digit_by_digit() {
    assert_eq!(LrolParser::parse_number(&chars("100,"), 0), Ok((3, dec("100"))));
    assert_eq!(LrolParser::parse_number(&chars("-12.50]"), 0), Ok((6, dec("-12.50"))));
    assert_eq!(LrolParser::parse_number(&chars("0.9"), 0), Ok((3, dec("0.9"))));
    assert_eq!(dec("-12.50").to_string(), "-12.50");
    assert_eq!(dec("007").to_string(), "007");
}

#[test]
fn a_point_without_digits_is_not_part_of_the_number() {
    assert_eq!(LrolParser::parse_number(&chars("1."), 0), Ok((1, dec("1"))));
    assert_eq!(LrolParser::parse_number(&chars("1.x"), 0), Ok((1, dec("1"))));
}

#[test]
fn numbers_need_a_digit() {
    assert_eq!(
        LrolParser::parse_number(&chars("-"), 0),
        Err(failure(1, SyntaxIssue::Digit))
    );
    assert_eq!(
        LrolParser::parse_number(&chars("+1"), 0),
        Err(failure(0, SyntaxIssue::Digit))
    );
    assert_eq!(
        LrolParser::parse_number(&chars(".5"), 0),
        Err(failure(0, SyntaxIssue::Digit))
    );
    assert_eq!(LrolParser::parse_number(&chars("1e5"), 0), Ok((1, dec("1"))));
}

#[test]
fn decimal_parse_takes_the_whole_text() {
    assert!(Decimal::parse("12").is_some());
    assert!(Decimal::parse("12 ").is_none());
    assert!(Decimal::parse("1e5").is_none());
    assert!(Decimal::parse("").is_none());
    assert!(Decimal::parse("1.").is_none());
}

#[test]
fn booleans_are_read_by_prefix() {
    assert_eq!(LrolParser::parse_boolean(&chars("true"), 0), Ok((4, true)));
    assert_eq!(LrolParser::parse_boolean(&chars("false,"), 0), Ok((5, false)));
    assert_eq!(LrolParser::parse_boolean(&chars("trueish"), 0), Ok((4, true)));
    assert_eq!(
        LrolParser::parse_boolean(&chars("True"), 0),
        Err(failure(0, SyntaxIssue::Boolean))
    );
    assert_eq!(
        LrolParser::parse_boolean(&chars("tru"), 0),
        Err(failure(0, SyntaxIssue::Boolean))
    );
}

#[test]
fn values_take_the_whitespace_around_them() {
    let text = chars(" \t\r\n 42 \n ,");
    assert_eq!(
        LrolParser::parse_value(&text, 0),
        Ok((text.len() - 1, Value::Number(dec("42"))))
    );
}

#[test]
fn a_value_of_no_form_fails_behind_the_whitespace() {
    assert_eq!(
        LrolParser::parse_value(&chars("  @"), 0),
        Err(failure(2, SyntaxIssue::AnyValue))
    );
    assert_eq!(
        LrolParser::parse_value(&chars(""), 0),
        Err(failure(0, SyntaxIssue::AnyValue))
    );
}

#[test]
fn arrays_hold_values_of_every_form() {
    let text = chars("[ 1 , \"a\", true, [ ], {\"k\": false} ]");
    let (next, items) = LrolParser::parse_array(&text, 0).unwrap();
    assert_eq!(next, text.len());
    assert_eq!(
        items,
        vec![
            Value::Number(dec("1")),
            Value::String("a".to_string()),
            Value::Bool(true),
            Value::Array(vec![]),
            Value::Object(vec![("k".to_string(), Value::Bool(false))]),
        ]
    );
}

#[test]
fn arrays_take_no_comma_at_the_end() {
    let text = chars("[1, 2, ]");
    assert_eq!(
        LrolParser::parse_array(&text, 0),
        Err(failure(5, SyntaxIssue::Expected(']')))
    );
    assert_eq!(
        LrolParser::parse_array(&chars("[1 2]"), 0),
        Err(failure(3, SyntaxIssue::Expected(']')))
    );
    assert_eq!(
        LrolParser::parse_array(&chars("1]"), 0),
        Err(failure(0, SyntaxIssue::Expected('[')))
    );
    assert_eq!(
        LrolParser::parse_array(&chars("[ ,1]"), 0),
        Err(failure(2, SyntaxIssue::Expected(']')))
    );
}

#[test]
fn items_end_where_no_value_follows() {
    let text = chars("1, 2 , x");
    let (next, items) = LrolParser::parse_items(&text, 0);
    assert_eq!(items, vec![Value::Number(dec("1")), Value::Number(dec("2"))]);
    assert_eq!(next, 5);
    assert_eq!(LrolParser::parse_items(&chars("x"), 0), (0, vec![]));
}

#[test]
fn objects_keep_their_members_in_order() {
    let text = chars("{ \"b\" : 1 , \"a\":\"x\" }");
    let (next, fields) = LrolParser::parse_object_value(&text, 0).unwrap();
    assert_eq!(next, text.len());
    assert_eq!(
        fields,
        vec![
            ("b".to_string(), Value::Number(dec("1"))),
            ("a".to_string(), Value::String("x".to_string())),
        ]
    );
    assert_eq!(LrolParser::parse_object_value(&chars("{}"), 0), Ok((2, vec![])));
}

#[test]
fn objects_need_their_braces_and_colons() {
    assert_eq!(
        LrolParser::parse_object_value(&chars("{\"a\" 1}"), 0),
        Err(failure(1, SyntaxIssue::Expected('}')))
    );
    assert_eq!(
        LrolParser::parse_object_value(&chars("[]"), 0),
        Err(failure(0, SyntaxIssue::Expected('{')))
    );
    assert_eq!(
        LrolParser::parse_object_value(&chars("{\"a\": 1"), 0),
        Err(failure(7, SyntaxIssue::Expected('}')))
    );
}

#[test]
fn a_member_is_a_key_a_colon_and_a_value() {
    let text = chars("  \"key\" : [1]  ,");
    let (next, member) = LrolParser::parse_key_value(&text, 0).unwrap();
    assert_eq!(member, ("key".to_string(), Value::Array(vec![Value::Number(dec("1"))])));
    assert_eq!(next, text.len() - 1);
    assert_eq!(
        LrolParser::parse_field(&chars(" \"key\": 1"), 0),
        Err(failure(0, SyntaxIssue::Expected('"')))
    );
    assert_eq!(
        LrolParser::parse_field(&chars("\"key\" 1"), 0),
        Err(failure(6, SyntaxIssue::Expected(':')))
    );
    assert_eq!(
        LrolParser::parse_field(&chars("\"key\": ?"), 0),
        Err(failure(7, SyntaxIssue::AnyValue))
    );
}

#[test]
fn whitespace_of_the_grammar_is_skipped() {
    assert_eq!(LrolParser::skip_whitespace(&chars(" \t\r\n x"), 0), 5);
    assert_eq!(LrolParser::skip_whitespace(&chars("\u{a0}x"), 0), 0);
    assert_eq!(LrolParser::skip_whitespace(&chars("   "), 1), 3);
    assert_eq!(LrolParser::skip_digits(&chars("123a"), 0), 3);
    assert_eq!(LrolParser::expect_char(&chars("a"), 0, 'a'), Ok(1));
    assert_eq!(
        LrolParser::expect_char(&chars("a"), 1, 'a'),
        Err(failure(1, SyntaxIssue::Expected('a')))
    );
}

#[test]
fn lines_and_columns_count_from_one() {
    let text = chars("ab\ncd\n\nef");
    assert_eq!(position_at(&text, 0), (1, 1));
    assert_eq!(position_at(&text, 2), (1, 3));
    assert_eq!(position_at(&text, 3), (2, 1));
    assert_eq!(position_at(&text, 6), (3, 1));
    assert_eq!(position_at(&text, 7), (4, 1));
    assert_eq!(position_at(&text, 9), (4, 3));
    assert_eq!(get_error_position("ab\ncd", "d"), (2, 2));
    assert_eq!(get_error_position("", ""), (1, 1));
}

#[test]
fn failures_are_reported_with_line_column_and_message() {
    let text = chars("{\n  \"a\": 1\n");
    assert_eq!(
        to_parser_error(&text, failure(11, SyntaxIssue::Expected('}'))),
        ParserError::InvalidSyntax {
            line: 3,
            column: 1,
            message: "Unexpected character: '}'".to_string(),
        }
    );
    let refused: Result<u8, SyntaxFailure> = syntax_error(4, SyntaxIssue::MissingName);
    assert_eq!(refused, Err(failure(4, SyntaxIssue::MissingName)));
}

#[test]
fn every_issue_has_its_message() {
    let cases = vec![
        (SyntaxIssue::Expected('{'), "Unexpected character: '{'"),
        (SyntaxIssue::StringContent, "Parse error: TakeWhile1"),
        (SyntaxIssue::Digit, "Parse error: Digit"),
        (SyntaxIssue::AnyValue, "Parse error: Alt"),
        (SyntaxIssue::Boolean, "Error in context: boolean"),
        (SyntaxIssue::EvaluationObject, "Error in context: evaluation object"),
        (SyntaxIssue::InvalidModelId, "Error in context: Invalid model_id"),
        (SyntaxIssue::InvalidName, "Error in context: Invalid name"),
        (SyntaxIssue::InvalidDescription, "Error in context: Invalid description"),
        (
            SyntaxIssue::InvalidThreshold,
            "Error in context: Invalid threshold type: expected Number",
        ),
        (
            SyntaxIssue::InvalidEvaluations,
            "Error in context: Invalid evaluations type: expected array",
        ),
        (
            SyntaxIssue::InvalidActions,
            "Error in context: Invalid actions type: expected array",
        ),
        (
            SyntaxIssue::InvalidMetadata,
            "Error in context: Invalid metadata type: expected object",
        ),
        (SyntaxIssue::InvalidEvaluationType, "Error in context: Invalid evaluation type"),
        (
            SyntaxIssue::InvalidLogicalOperator,
            "Error in context: Invalid logical operator, expected 'AND' or 'OR'",
        ),
        (
            SyntaxIssue::InvalidOperands,
            "Error in context: Operands must be an array of strings",
        ),
        (SyntaxIssue::InvalidWeight, "Error in context: Weight must be a number"),
        (SyntaxIssue::InvalidAggregation, "Error in context: Invalid aggregation type"),
        (SyntaxIssue::MissingName, "Error in context: Missing required field 'name'"),
        (SyntaxIssue::MissingType, "Error in context: Missing required field 'type'"),
        (
            SyntaxIssue::MissingOperands,
            "Error in context: Logical evaluation requires 'operands' field",
        ),
        (
            SyntaxIssue::MissingOperator,
            "Error in context: Logical evaluation requires 'operator' field",
        ),
        (
            SyntaxIssue::MissingLeft,
            "Error in context: Comparison evaluation requires 'left' field",
        ),
        (
            SyntaxIssue::MissingRight,
            "Error in context: Comparison evaluation requires 'right' field",
        ),
    ];
    for (issue, message) in cases {
        assert_eq!(issue.message_text(), message);
    }
    assert_eq!(SyntaxIssue::Digit.context_text(), "");
    assert_eq!(SyntaxIssue::MissingLeft.context_text(), "Comparison evaluation requires 'left' field");
}

#[test]
fn parser_errors_read_as_sentences() {
    let e = ParserError::InvalidSyntax { line: 12, column: 3, message: "m".to_string() };
    assert_eq!(e.to_string(), "Syntax error at line 12, column 3: m");
    let e = ParserError::MissingField { field: "name".to_string() };
    assert_eq!(e.to_string(), "Missing required field: name");
    let e = ParserError::InvalidValue {
        field: "f".to_string(),
        expected: "a".to_string(),
        found: "b".to_string(),
    };
    assert_eq!(e.to_string(), "Invalid value for field f: expected a, found b");
    let e = ParserError::InvalidSyntax { line: 0, column: 1000, message: String::new() };
    assert_eq!(e.to_string(), "Syntax error at line 0, column 1000: ");
}

#[test]
fn integers_fill_the_whole_text() {
    assert_eq!(parse_integer(&chars("42")), Some(42));
    assert_eq!(parse_integer(&chars("-2")), Some(-2));
    assert_eq!(parse_integer(&chars("+7")), Some(7));
    assert_eq!(parse_integer(&chars("007")), Some(7));
    assert_eq!(parse_integer(&chars("-0")), Some(0));
    assert_eq!(parse_integer(&chars("9223372036854775807")), Some(i64::MAX));
    assert_eq!(parse_integer(&chars("-9223372036854775808")), Some(i64::MIN));
    assert_eq!(parse_integer(&chars("9223372036854775808")), None);
    assert_eq!(parse_integer(&chars("-9223372036854775809")), None);
    assert_eq!(parse_integer(&chars("99999999999999999999999999")), None);
    assert_eq!(parse_integer(&chars("")), None);
    assert_eq!(parse_integer(&chars("-")), None);
    assert_eq!(parse_integer(&chars("+")), None);
    assert_eq!(parse_integer(&chars("1 ")), None);
    assert_eq!(parse_integer(&chars("1_0")), None);
    assert_eq!(parse_integer(&chars("--1")), None);
    assert_eq!(parse_integer(&chars("١")), None);
}

#[test]
fn the_unit_interval_is_closed() {
    for inside in ["0", "1", "0.0", "1.000", "0.5", "0.999999999999999999999", "-0", "-0.00", "001", "000.3"] {
        assert!(dec(inside).is_in_unit_interval(), "{}", inside);
    }
    for outside in ["1.5", "-0.1", "2", "1.000000000000000000001", "-1", "10", "11", "-0.0001", "100.0"] {
        assert!(!dec(outside).is_in_unit_interval(), "{}", outside);
    }
}

#[test]
fn weights_are_cut_to_whole_numbers() {
    assert_eq!(dec("3").to_i32(), 3);
    assert_eq!(dec("3.99").to_i32(), 3);
    assert_eq!(dec("-3.99").to_i32(), -3);
    assert_eq!(dec("0.5").to_i32(), 0);
    assert_eq!(dec("2147483647").to_i32(), i32::MAX);
    assert_eq!(dec("2147483648").to_i32(), i32::MAX);
    assert_eq!(dec("-2147483648").to_i32(), i32::MIN);
    assert_eq!(dec("-2147483649").to_i32(), i32::MIN);
    assert_eq!(dec("99999999999999999999999999").to_i32(), i32::MAX);
    assert_eq!(dec("-99999999999999999999999999").to_i32(), i32::MIN);
    assert_eq!(dec("0000000000000000000000005").to_i32(), 5);
}

#[test]
fn decimals_know_their_parts() {
    assert!(dec("-1").is_negative());
    assert!(!dec("1").is_negative());
    assert_eq!(Decimal::zero().to_string(), "0");
    assert_eq!(Decimal::zero(), dec("0"));
    assert_eq!(dec("1.25").duplicate(), dec("1.25"));
    assert_eq!(dec("1.25").clone(), dec("1.25"));
    assert_eq!(Decimal::from_digits(true, vec!['1', '2'], vec!['5']), dec("-12.5"));
}

#[test]
fn kinds_are_named_in_any_case() {
    assert_eq!(EvaluationType::from_str("comparison"), Ok(EvaluationType::Comparison));
    assert_eq!(EvaluationType::from_str("LOGICAL"), Ok(EvaluationType::Logical));
    assert_eq!(EvaluationType::from_str("Aggregation"), Ok(EvaluationType::Aggregation));
    assert_eq!(EvaluationType::from_str("Time-Based"), Ok(EvaluationType::TimeBased));
    assert_eq!(EvaluationType::from_str("conditional"), Ok(EvaluationType::Conditional));
    assert_eq!(EvaluationType::from_str("timebased"), Err("Invalid evaluation type"));
    assert_eq!(EvaluationType::from_str(""), Err("Invalid evaluation type"));
    assert_eq!(EvaluationType::from_lowercase("LOGICAL"), None);
    assert_eq!(EvaluationType::from_lowercase("logical"), Some(EvaluationType::Logical));
    assert_eq!(EvaluationType::TimeBased.to_string(), "time-based");
    assert_eq!(EvaluationType::Comparison.to_string(), "comparison");
    assert_eq!(EvaluationType::Logical.to_string(), "logical");
    assert_eq!(EvaluationType::Aggregation.to_string(), "aggregation");
    assert_eq!(EvaluationType::Conditional.to_string(), "conditional");
}

#[test]
fn aggregations_are_named_in_capitals() {
    for (name, aggregation) in [
        ("SUM", Aggregation::SUM),
        ("COUNT", Aggregation::COUNT),
        ("AVG", Aggregation::AVG),
        ("MIN", Aggregation::MIN),
        ("MAX", Aggregation::MAX),
        ("STDDEV", Aggregation::STDDEV),
    ] {
        assert_eq!(Aggregation::from_str(name), Ok(aggregation));
        assert_eq!(aggregation.to_string(), name);
    }
    assert_eq!(Aggregation::from_str("sum"), Err("Invalid aggregation type"));
}

#[test]
fn values_are_copied_in_depth() {
    let value = Value::Object(vec![(
        "a".to_string(),
        Value::Array(vec![Value::Number(dec("1.5")), Value::String("x".to_string())]),
    )]);
    assert_eq!(value.duplicate(), value);
    assert_eq!(value.clone(), value);
}

#[test]
fn a_document_may_be_empty() {
    let model = parse_str("  {}  ").unwrap();
    assert_eq!(model, lrol::LrolModel::default());
    assert_eq!(model.threshold.to_string(), "0");
    assert!(model.metadata.is_none());
}

#[test]
fn what_follows_the_document_is_not_read() {
    let model = parse_str("{\"name\": \"n\"} and more").unwrap();
    assert_eq!(model.name, "n");
}

#[test]
fn members_may_end_with_a_comma() {
    let model = parse_str("{\"name\": \"n\", }").unwrap();
    assert_eq!(model.name, "n");
    assert_eq!(syntax(parse_str("{ , }")), (1, 3, "Unexpected character: '}'".to_string()));
}

#[test]
fn the_later_of_two_members_counts() {
    let model = parse_str("{\"name\": \"a\", \"other\": [1, {\"x\": 2}], \"name\": \"b\"}").unwrap();
    assert_eq!(model.name, "b");
}

#[test]
fn a_document_is_an_object() {
    assert_eq!(syntax(parse_str("")), (1, 1, "Unexpected character: '{'".to_string()));
    assert_eq!(syntax(parse_str("\n\n  [")), (3, 3, "Unexpected character: '{'".to_string()));
    assert_eq!(syntax(parse_str("{\"name\": \"n\"")), (1, 13, "Unexpected character: '}'".to_string()));
}

#[test]
fn a_member_that_cannot_be_read_is_reported_where_it_begins() {
    let input = "{\n  \"name\": \"n\",\n  \"threshold\": 0.,\n  \"actions\": []\n}";
    assert_eq!(syntax(parse_str(input)), (3, 17, "Unexpected character: '}'".to_string()));
    let input = "{\n  \"name\": \"n\",\n  \"evaluations\": [1, ],\n  \"actions\": []\n}";
    assert_eq!(syntax(parse_str(input)), (3, 3, "Unexpected character: '}'".to_string()));
}

#[test]
fn known_members_take_one_form() {
    let cases = vec![
        ("{\"model_id\": 1}", "Error in context: Invalid model_id"),
        ("{\"name\": true}", "Error in context: Invalid name"),
        ("{\"description\": []}", "Error in context: Invalid description"),
        ("{\"threshold\": \"0.5\"}", "Error in context: Invalid threshold type: expected Number"),
        ("{\"evaluations\": {}}", "Error in context: Invalid evaluations type: expected array"),
        ("{\"actions\": 1}", "Error in context: Invalid actions type: expected array"),
        ("{\"metadata\": []}", "Error in context: Invalid metadata type: expected object"),
    ];
    for (input, message) in cases {
        let (line, column, found) = syntax(parse_str(input));
        assert_eq!(found, message);
        assert_eq!((line, column), (1, input.len()));
    }
}

#[test]
fn metadata_is_read_from_its_object() {
    let model = parse_str(
        "{\"metadata\": {\"created_by\": \"me\", \"created_at\": \"2024-01-01\", \"notes\": 5, \"extra\": \"x\"}}",
    )
    .unwrap();
    let metadata = model.metadata.unwrap();
    assert_eq!(metadata.created_by, Some("me".to_string()));
    assert_eq!(metadata.created_at, Some("2024-01-01".to_string()));
    assert_eq!(metadata.last_updated, None);
    assert_eq!(metadata.notes, None);
}

#[test]
fn actions_without_type_or_reason_are_dropped() {
    let model = parse_str(
        "{\"actions\": [{\"type\": \"a\"}, 7, {\"reason\": \"r\"}, {\"type\": \"t\", \"reason\": \"r\", \"x\": 1}, {\"type\": 1, \"reason\": \"r\"}]}",
    )
    .unwrap();
    assert_eq!(model.actions.len(), 1);
    assert_eq!(model.actions[0].action_type, "t");
    assert_eq!(model.actions[0].reason, "r");
    assert_eq!(
        LrolParser::parse_action_from_fields(&[("reason".to_string(), Value::String("r".to_string()))]),
        Err("Missing action type")
    );
    assert_eq!(
        LrolParser::parse_action_from_fields(&[("type".to_string(), Value::String("t".to_string()))]),
        Err("Missing reason")
    );
    assert_eq!(LrolParser::parse_action_from_fields(&[]), Err("Missing action type"));
}
