use lrol::decimal::Decimal;
use lrol::error::get_error_position;
use lrol::types::{EvaluationType, Value};
use lrol::{LrolParser, ParserError};

fn chars(input: &str) -> Vec<char> {
    input.chars().collect()
}

fn number(value: &Decimal) -> f64 {
    value.to_string().parse::<f64>().unwrap()
}

fn number_of(value: &Option<Value>) -> f64 {
    match value {
        Some(Value::Number(d)) => number(d),
        other => panic!("not a number: {:?}", other),
    }
}

#[test]
fn test_parse_empty_arrays() {
    let input = r#"{
            "model_id": "M501",
            "name": "Test Model",
            "threshold": 0.9,
            "evaluations": [],
            "actions": []
        }"#;

    let result = LrolParser::parse(input);
    assert!(result.is_ok());
    let model = result.unwrap();
    assert!(model.evaluations.is_empty());
    assert!(model.actions.is_empty());
}

#[test]
fn test_parse_single_evaluation() {
    let input = r#"{
            "name": "Test_Check",
            "type": "comparison",
            "left": "value",
            "operator": ">",
            "right": 100,
            "weight": 3
        }"#;

    let result = LrolParser::parse_single_evaluation(&chars(input), 0);
    assert!(
        result.is_ok(),
        "Failed to parse with error: {:?}",
        result.err()
    );
    assert!(result.is_ok());
}

#[test]
fn test_parse_evaluations_array() {
    let input = r#"[
            {
                "name": "Test_Check",
                "type": "comparison",
                "left": "value",
                "operator": ">",
                "right": 100,
                "weight": 3
            }
        ]"#;

    let (_rest, values) = LrolParser::parse_array(&chars(input), 0).unwrap();
    let evaluations = LrolParser::parse_evaluations_array(0, values).unwrap();
    assert_eq!(evaluations.len(), 1);

    let eval = &evaluations[0];
    assert_eq!(eval.name, "Test_Check");
    assert_eq!(eval.evaluation_type, EvaluationType::Comparison);
    assert_eq!(eval.left, Some(String::from("value")));
    assert_eq!(eval.operator, Some(String::from(">")));
    assert_eq!(eval.weight, Some(3));
}

#[test]
fn test_parse_readme_example() {
    let input = r#"{
            "model_id": "M501",
            "name": "High-Risk Open Banking Transactions",
            "description": "Detects high-value transactions initiated by third-party apps",
            "threshold": 0.9,
            "evaluations": [
                {
                    "name": "Transaction_Amount_Check",
                    "type": "comparison",
                    "left": "transaction_amount",
                    "operator": ">",
                    "right": 10000,
                    "weight": 4
                },
                {
                    "name": "Account_Age_Check",
                    "type": "comparison",
                    "left": "account_age_days",
                    "operator": "<=",
                    "right": 30,
                    "weight": 3
                },
                {
                    "name": "High_Risk_Transaction_Logic",
                    "type": "logical",
                    "operator": "AND",
                    "operands":[
                        "Transaction_Amount_Check",
                        "Account_Age_Check"
                    ],
                    "weight": 5
                }
            ],
            "actions": [
                {
                    "type": "flag_transaction",
                    "reason": "Transaction flagged due to high value and new account."
                }
            ]
        }"#;

    let result = LrolParser::parse(input);
    assert!(
        result.is_ok(),
        "Failed to parse with error: {:?}",
        result.err()
    );

    let model = result.unwrap();

    assert_eq!(model.model_id, "M501");
    assert_eq!(model.name, "High-Risk Open Banking Transactions");
    assert_eq!(number(&model.threshold), 0.9);

    assert_eq!(model.evaluations.len(), 3);
    let first_eval = &model.evaluations[0];
    assert_eq!(first_eval.name, "Transaction_Amount_Check");
    assert_eq!(first_eval.evaluation_type, EvaluationType::Comparison);
    assert_eq!(first_eval.left, Some(String::from("transaction_amount")));
    assert_eq!(first_eval.operator, Some(String::from(">")));
    assert_eq!(number_of(&first_eval.right), 10000.0);
    assert_eq!(first_eval.weight, Some(4));

    let second_eval = &model.evaluations[1];
    assert_eq!(second_eval.name, "Account_Age_Check");
    assert_eq!(second_eval.evaluation_type, EvaluationType::Comparison);
    assert_eq!(second_eval.left, Some(String::from("account_age_days")));
    assert_eq!(second_eval.operator, Some(String::from("<=")));
    assert_eq!(number_of(&second_eval.right), 30.0);
    assert_eq!(second_eval.weight, Some(3));

    let third_eval = &model.evaluations[2];
    assert_eq!(third_eval.name, "High_Risk_Transaction_Logic");
    assert_eq!(third_eval.evaluation_type, EvaluationType::Logical);
    assert_eq!(third_eval.operator, Some(String::from("AND")));
    assert_eq!(
        third_eval.operands,
        Some(vec![
            "Transaction_Amount_Check".to_string(),
            "Account_Age_Check".to_string()
        ])
    );
    assert_eq!(third_eval.weight, Some(5));

    assert_eq!(model.actions.len(), 1);
    let action = &model.actions[0];
    assert_eq!(action.action_type, "flag_transaction");
    assert_eq!(
        action.reason,
        "Transaction flagged due to high value and new account."
    );
}

#[test]
fn test_parse_with_syntax_error() {
    let input = r#"{
            "model_id": "M501",
            "name": "Test Model",
            "threshold": 0.9,
            "evaluations": [
                {
                    "name": "Test_Check"
                    "type": "comparison",  // Missing comma
                    "left": "value",
                    "operator": ">",
                    "right": 100
                }
            ]
        }"#;

    let result = LrolParser::parse(input);
    assert!(result.is_err());

    match result {
        Err(ParserError::InvalidSyntax {
            line,
            column,
            message,
        }) => {
            println!("Error at line {}, column {}: {}", line, column, message);
            assert!(line > 1, "Error should not be on first line");
        }
        _ => panic!("Expected InvalidSyntax error"),
    }
}

#[test]
fn test_error_position_calculation() {
    let input = "line1\nline2\nline3\nline4\nerror";
    let error_input = "error";
    let (line, column) = get_error_position(input, error_input);
    assert_eq!(line, 5);
    assert_eq!(column, 1);
}

#[test]
fn test_parse_with_wrong_type() {
    let input = r#"{
            "model_id": "M501",
            "name": "Test Model",
            "threshold": "not_a_number",
            "evaluations": []
        }"#;

    let result = LrolParser::parse(input);
    assert!(result.is_err());

    match result {
        Err(ParserError::InvalidSyntax {
            line,
            column,
            message,
        }) => {
            println!("Error at line {}, column {}: {}", line, column, message);
            assert_eq!(line, 4, "Error should be on line 4");
        }
        _ => panic!("Expected InvalidSyntax error"),
    }
}
