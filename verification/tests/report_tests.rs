use lrol::decimal::Decimal;
use lrol::diagnostics::{
    add_field, field_string, integer_string, quote, quote_list, record_string, tuple_string,
    AnalyzerError, ValidationError,
};
use lrol::error::push_decimal;
use lrol::validator::{file_outcome, RuleValidator, ValidationReport};
use lrol::{LrolParser, ParserError};

fn s(text: &str) -> String {
    text.to_string()
}

const WITH_INVALID_OPERATOR: &str = r#"{
            "model_id": "TEST001",
            "name": "Rule with Issues",
            "threshold": 0.9,
            "evaluations": [
                {
                    "name": "check1",
                    "type": "logical",
                    "operator": "INVALID",
                    "operands": ["non_existent"],
                    "weight": 10
                }
            ],
            "actions": [
                {
                    "type": "flag_transaction",
                    "reason": "High amount detected"
                }
            ]
        }"#;

const WITH_SEVERAL_FINDINGS: &str = r#"{
            "model_id": "TEST001",
            "name": "Rule with Multiple Issues",
            "threshold": 0.9,
            "evaluations": [
                {
                    "name": "check1",
                    "type": "logical",
                    "operator": "AND",
                    "operands": ["non_existent"],
                    "weight": 10
                },
                {
                    "name": "check1",
                    "type": "comparison",
                    "left": "amount",
                    "operator": ">",
                    "right": 100,
                    "weight": 3
                }
            ],
           "actions": [
                {
                    "type": "flag_transaction",
                    "reason": "High amount detected"
                }
            ]
        }"#;

#[test]
fn test_validation_report_formatting() {
    let mut validator = RuleValidator::new();
    let report = validator.validate_with_report(WITH_INVALID_OPERATOR);
    assert_eq!(
        report.parser_error,
        Some(ParserError::InvalidSyntax {
            line: 20,
            column: 9,
            message: s("Error in context: Invalid logical operator, expected 'AND' or 'OR'"),
        })
    );
    assert!(report.analyzer_errors.is_empty());
    assert!(report.model.is_none());
    assert!(!report.is_valid());
    let formatted_report = report.format_errors();
    assert!(!formatted_report.is_empty());
    assert!(!formatted_report.contains("Analyzer Errors:"));
    assert_eq!(
        formatted_report,
        "Parser Error: Syntax error at line 20, column 9: Error in context: Invalid logical operator, expected 'AND' or 'OR'\n"
    );
}

#[test]
fn all_findings_of_the_analyzer_are_in_the_report() {
    let mut validator = RuleValidator::new();
    let report = validator.validate_with_report(WITH_SEVERAL_FINDINGS);
    assert!(report.parser_error.is_none());
    assert!(report.model.is_some());
    assert_eq!(
        report.analyzer_errors,
        vec![
            AnalyzerError::InvalidWeightRange { evaluation_name: s("check1"), weight: 10 },
            AnalyzerError::DuplicateEvaluationName(s("check1")),
            AnalyzerError::InvalidWeight { evaluation_name: s("check1"), weight: 10 },
            AnalyzerError::InvalidWeight { evaluation_name: s("check1"), weight: 10 },
            AnalyzerError::MissingOperandReference {
                evaluation_name: s("check1"),
                missing_operand: s("non_existent"),
            },
        ]
    );
    let error_report = report.format_errors();
    assert!(error_report.contains("Analyzer Errors:"));
    assert!(error_report.contains("1."));
    assert_eq!(
        error_report,
        "Analyzer Errors:\n\
         1. InvalidWeightRange { evaluation_name: \"check1\", weight: 10 }\n\
         2. DuplicateEvaluationName(\"check1\")\n\
         3. InvalidWeight { evaluation_name: \"check1\", weight: 10 }\n\
         4. InvalidWeight { evaluation_name: \"check1\", weight: 10 }\n\
         5. MissingOperandReference { evaluation_name: \"check1\", missing_operand: \"non_existent\" }\n"
    );
}

#[test]
fn validation_gives_the_model_or_the_findings() {
    let mut validator = RuleValidator::new();
    match validator.validate(WITH_INVALID_OPERATOR) {
        Err(errors) => {
            assert_eq!(errors.len(), 1);
            assert!(matches!(errors[0], ValidationError::Parser(_)));
            assert_eq!(
                errors[0].to_string(),
                "Parser error: Syntax error at line 20, column 9: Error in context: Invalid logical operator, expected 'AND' or 'OR'"
            );
        }
        Ok(model) => panic!("expected findings, got {:?}", model),
    }
    match validator.validate(WITH_SEVERAL_FINDINGS) {
        Err(errors) => {
            assert_eq!(errors.len(), 5);
            assert_eq!(
                errors[1],
                ValidationError::Analyzer(AnalyzerError::DuplicateEvaluationName(s("check1")))
            );
            assert_eq!(
                errors[1].to_string(),
                "Analyzer error: DuplicateEvaluationName(\"check1\")"
            );
        }
        Ok(model) => panic!("expected findings, got {:?}", model),
    }
    let valid = r#"{"model_id":"M1","name":"N","threshold":0.9,"evaluations":[{"name":"a","type":"comparison","left":"amt","operator":">","right":100,"weight":3}],"actions":[{"type":"flag","reason":"r"}]}"#;
    let model = validator.validate(valid).unwrap();
    assert_eq!(model.model_id, "M1");
    assert_eq!(model, LrolParser::parse(valid).unwrap());
}

#[test]
fn validation_can_be_given_what_the_parser_returned() {
    let mut validator = RuleValidator::new();
    let text = r#"{"model_id":"M1","name":"N","threshold":0.9,"evaluations":[{"name":"a","type":"conditional"}],"actions":[{"type":"flag","reason":"r"}],"metadata":{"created_at":"whenever"}}"#;
    let report = validator.report_parsed(LrolParser::parse(text), true, true);
    assert!(report.is_valid());
    let report = validator.report_parsed(LrolParser::parse(text), false, true);
    assert_eq!(
        report.analyzer_errors,
        vec![AnalyzerError::InvalidMetadataFormat {
            field: s("created_at"),
            reason: s("Invalid datetime format"),
        }]
    );
    assert!(report.model.is_some());
    assert!(validator.validate_parsed(LrolParser::parse(text), true, false).is_ok());
    assert_eq!(
        validator.validate_parsed(LrolParser::parse(text), false, false).unwrap_err().len(),
        1
    );
    let refused = validator.report_parsed(LrolParser::parse("["), false, false);
    assert!(refused.parser_error.is_some());
    assert!(refused.model.is_none());
    assert_eq!(validator.validate_with_report(text).analyzer_errors.len(), 1);
}

#[test]
fn a_report_without_findings_says_so() {
    let report = ValidationReport::new();
    assert!(report.is_valid());
    assert_eq!(report.file_path, None);
    assert!(report.model.is_none());
    assert_eq!(report.format_errors(), "No validation errors found.");
    let report = ValidationReport::with_file_path("rules/a.json");
    assert!(report.is_valid());
    assert_eq!(report.file_path, Some(s("rules/a.json")));
    assert_eq!(report.format_errors(), "File: rules/a.json\n");
    let report = ValidationReport::with_file_path("{}");
    assert_eq!(report.format_errors(), "File: {}\nNo validation errors found.");
}

#[test]
fn a_report_lists_the_file_the_parser_and_the_analyzer() {
    let mut report = ValidationReport::with_file_path("a.json");
    report.parser_error = Some(ParserError::MissingField { field: s("name") });
    report.analyzer_errors = vec![
        AnalyzerError::EmptyOperands(s("e")),
        AnalyzerError::MissingRequiredSchemaField { field: s("actions") },
    ];
    assert!(!report.is_valid());
    assert_eq!(
        report.format_errors(),
        "File: a.json\nParser Error: Missing required field: name\nAnalyzer Errors:\n1. EmptyOperands(\"e\")\n2. MissingRequiredSchemaField { field: \"actions\" }\n"
    );
    let many = ValidationReport {
        file_path: None,
        model: None,
        parser_error: None,
        analyzer_errors: (0..12).map(|i| AnalyzerError::EmptyOperands(format!("e{}", i))).collect(),
    };
    let text = many.format_errors();
    assert!(text.contains("\n9. EmptyOperands(\"e8\")\n10. EmptyOperands(\"e9\")\n"));
    assert!(text.ends_with("12. EmptyOperands(\"e11\")\n"));
}

#[test]
fn every_finding_is_written_out() {
    let cases = vec![
        (AnalyzerError::DuplicateEvaluationName(s("a")), "DuplicateEvaluationName(\"a\")"),
        (
            AnalyzerError::MissingOperandReference {
                evaluation_name: s("b"),
                missing_operand: s("missing"),
            },
            "MissingOperandReference { evaluation_name: \"b\", missing_operand: \"missing\" }",
        ),
        (
            AnalyzerError::CircularDependency {
                evaluation_name: s("x"),
                dependency_chain: vec![s("x"), s("y")],
            },
            "CircularDependency { evaluation_name: \"x\", dependency_chain: [\"x\", \"y\"] }",
        ),
        (
            AnalyzerError::CircularDependency { evaluation_name: s("x"), dependency_chain: vec![] },
            "CircularDependency { evaluation_name: \"x\", dependency_chain: [] }",
        ),
        (
            AnalyzerError::InvalidWeight { evaluation_name: s("w"), weight: -6 },
            "InvalidWeight { evaluation_name: \"w\", weight: -6 }",
        ),
        (
            AnalyzerError::MissingRequiredField { evaluation_name: s("c"), field_name: s("left") },
            "MissingRequiredField { evaluation_name: \"c\", field_name: \"left\" }",
        ),
        (
            AnalyzerError::InvalidLogicalOperator { evaluation_name: s("l"), operator: s("XOR") },
            "InvalidLogicalOperator { evaluation_name: \"l\", operator: \"XOR\" }",
        ),
        (AnalyzerError::EmptyOperands(s("e")), "EmptyOperands(\"e\")"),
        (
            AnalyzerError::InvalidStringReference {
                evaluation_name: s("r"),
                field_name: s("left"),
                reference: s("gone"),
            },
            "InvalidStringReference { evaluation_name: \"r\", field_name: \"left\", reference: \"gone\" }",
        ),
        (
            AnalyzerError::InvalidDateTimeExpression {
                evaluation_name: s("t"),
                field_name: s("right"),
                expression: s("datetime(x)"),
                reason: s("Invalid first argument"),
            },
            "InvalidDateTimeExpression { evaluation_name: \"t\", field_name: \"right\", expression: \"datetime(x)\", reason: \"Invalid first argument\" }",
        ),
        (
            AnalyzerError::InvalidDurationFormat {
                evaluation_name: s("t"),
                field_name: s("right"),
                duration: s("2 x"),
                reason: s("Invalid duration unit"),
            },
            "InvalidDurationFormat { evaluation_name: \"t\", field_name: \"right\", duration: \"2 x\", reason: \"Invalid duration unit\" }",
        ),
        (
            AnalyzerError::InvalidThreshold {
                value: Decimal::parse("-1.50").unwrap(),
                reason: s("Threshold must be between 0 and 1"),
            },
            "InvalidThreshold { value: -1.50, reason: \"Threshold must be between 0 and 1\" }",
        ),
        (
            AnalyzerError::InvalidEvaluationType { evaluation_name: s("e"), found_type: s("odd") },
            "InvalidEvaluationType { evaluation_name: \"e\", found_type: \"odd\" }",
        ),
        (
            AnalyzerError::InvalidComparisonOperator { evaluation_name: s("c"), operator: s("~") },
            "InvalidComparisonOperator { evaluation_name: \"c\", operator: \"~\" }",
        ),
        (
            AnalyzerError::InvalidAggregationType {
                evaluation_name: s("a"),
                aggregation: s("MEDIAN"),
            },
            "InvalidAggregationType { evaluation_name: \"a\", aggregation: \"MEDIAN\" }",
        ),
        (
            AnalyzerError::InvalidWeightRange { evaluation_name: s("w"), weight: 2147483647 },
            "InvalidWeightRange { evaluation_name: \"w\", weight: 2147483647 }",
        ),
        (
            AnalyzerError::InvalidWeightRange { evaluation_name: s("w"), weight: -2147483648 },
            "InvalidWeightRange { evaluation_name: \"w\", weight: -2147483648 }",
        ),
        (
            AnalyzerError::InvalidActionType { action_type: s("") },
            "InvalidActionType { action_type: \"\" }",
        ),
        (
            AnalyzerError::MissingActionReason { action_type: s("t") },
            "MissingActionReason { action_type: \"t\" }",
        ),
        (
            AnalyzerError::InvalidMetadataFormat {
                field: s("created_at"),
                reason: s("Invalid datetime format"),
            },
            "InvalidMetadataFormat { field: \"created_at\", reason: \"Invalid datetime format\" }",
        ),
        (
            AnalyzerError::MissingRequiredSchemaField { field: s("name") },
            "MissingRequiredSchemaField { field: \"name\" }",
        ),
    ];
    for (finding, text) in cases {
        assert_eq!(finding.describe(), text);
    }
}

#[test]
fn texts_are_built_from_their_parts() {
    assert_eq!(quote("a b"), "\"a b\"");
    assert_eq!(quote(""), "\"\"");
    assert_eq!(quote_list(&vec![]), "");
    assert_eq!(quote_list(&vec![s("a")]), "\"a\"");
    assert_eq!(quote_list(&vec![s("a"), s("b"), s("c")]), "\"a\", \"b\", \"c\"");
    assert_eq!(integer_string(0), "0");
    assert_eq!(integer_string(-17), "-17");
    assert_eq!(integer_string(305), "305");
    assert_eq!(field_string("k", "v"), "k: v");
    assert_eq!(tuple_string("T", "v"), "T(v)");
    assert_eq!(record_string("R", "k: v"), "R { k: v }");
    assert_eq!(add_field(s("a: 1"), "b", "2"), "a: 1, b: 2");
    let mut out = s("n=");
    push_decimal(&mut out, 0);
    push_decimal(&mut out, 9);
    push_decimal(&mut out, 10);
    push_decimal(&mut out, 12345678901234567890);
    assert_eq!(out, "n=091012345678901234567890");
}

#[test]
fn test_validate_multiple_errors() {
    let input = r#"{
            "model_id": "TEST001",
            "name": "Rule with Multiple Issues",
            "threshold": 0.9,
            "evaluations": [
                {
                    "name": "check1",
                    "type": "logical",
                    "operator": "INVALID",
                    "operands": ["non_existent"],
                    "weight": 10
                },
                {
                    "name": "check1",
                    "type": "comparison",
                    "left": "amount",
                    "operator": ">",
                    "right": 100,
                    "weight": 3
                }
            ],
           "actions": [
                {
                    "type": "flag_transaction",
                    "reason": "High amount detected"
                }
            ]
        }"#;

    let mut validator = RuleValidator::new();
    let report = validator.validate_with_report(input);
    assert!(report.parser_error.is_some());
    assert!(report.analyzer_errors.is_empty());
    assert!(!report.is_valid());
    let error_report = report.format_errors();
    assert!(error_report.starts_with("Parser Error: Syntax error at line 28, column 9: "));
    assert!(!error_report.contains("Analyzer Errors:"));
}

#[test]
fn a_report_is_a_success_only_where_nothing_was_found() {
    let mut validator = RuleValidator::new();
    let text = r#"{"model_id":"M1","name":"N","threshold":0.9,"evaluations":[{"name":"a","type":"conditional"}],"actions":[{"type":"flag","reason":"r"}]}"#;
    let clean = validator.validate_with_report(text);
    assert!(clean.is_valid());
    match file_outcome(validator.validate_with_report(text)) {
        Ok(report) => {
            assert_eq!(report.model, clean.model);
            assert!(report.parser_error.is_none());
            assert!(report.analyzer_errors.is_empty());
        }
        Err(report) => panic!("expected a success, got {}", report.format_errors()),
    }
    match file_outcome(validator.validate_with_report(WITH_INVALID_OPERATOR)) {
        Err(report) => {
            assert!(report.parser_error.is_some());
            assert!(report.model.is_none());
        }
        Ok(_) => panic!("a report with a parser error is no success"),
    }
    match file_outcome(validator.validate_with_report(WITH_SEVERAL_FINDINGS)) {
        Err(report) => {
            assert!(report.parser_error.is_none());
            assert_eq!(report.analyzer_errors.len(), 5);
        }
        Ok(_) => panic!("a report with findings is no success"),
    }
    assert!(file_outcome(ValidationReport::new()).is_ok());
}

#[test]
fn a_timestamp_with_a_zone_offset_of_a_day_or_more_is_a_finding() {
    let mut validator = RuleValidator::new();
    let text = r#"{"model_id":"M1","name":"N","threshold":0.9,"evaluations":[{"name":"a","type":"conditional"}],"actions":[{"type":"flag","reason":"r"}],"metadata":{"created_at":"2021-02-21 +9900","last_updated":"2021-02-21 +0900"}}"#;
    let expected = vec![AnalyzerError::InvalidMetadataFormat {
        field: s("created_at"),
        reason: s("Invalid datetime format"),
    }];
    let report = validator.validate_with_report(text);
    assert!(report.parser_error.is_none());
    assert_eq!(report.analyzer_errors, expected);
    let again = validator.validate_with_report(text);
    assert_eq!(again.analyzer_errors, expected);
    assert_eq!(
        validator.validate(text),
        Err(vec![ValidationError::Analyzer(expected[0].clone())])
    );
}
