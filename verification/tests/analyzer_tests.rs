use lrol::analyzer::RuleAnalyzer;
use lrol::decimal::Decimal;
use lrol::diagnostics::AnalyzerError;
use lrol::parser::LrolModel;
use lrol::types::{Action, Evaluation, EvaluationType, Metadata, Value};

fn num(x: f64) -> Decimal {
    Decimal::parse(&format!("{:?}", x)).unwrap()
}

fn create_test_model() -> LrolModel {
    LrolModel {
        model_id: "TEST001".to_string(),
        name: "Test Model".to_string(),
        description: Some("Test Description".to_string()),
        threshold: num(0.9),
        evaluations: vec![
            Evaluation {
                name: "amount_check".to_string(),
                evaluation_type: EvaluationType::Comparison,
                left: Some("amount".to_string()),
                operator: Some(">".to_string()),
                right: Some(Value::Number(num(1000.0))),
                operands: None,
                weight: Some(3),
                aggregation: None,
            },
            Evaluation {
                name: "risk_check".to_string(),
                evaluation_type: EvaluationType::Logical,
                left: None,
                operator: Some("AND".to_string()),
                right: None,
                operands: Some(vec!["amount_check".to_string()]),
                weight: Some(4),
                aggregation: None,
            },
        ],
        actions: vec![
            Action {
            action_type: "flag_transaction".to_string(),
            reason: "High risk transaction".to_string(),
        }
        ],
        metadata: Some(Metadata{
            created_by: Some("test_user".to_owned()),
            created_at: Some("2024-01-01T12:00:00Z".to_owned()),
            last_updated: Some("2024-01-01T12:00:00Z".to_owned()),
            notes: Some("Test notes".to_owned())
        })
    }
}

#[test]
fn test_valid_model() {
    let model = create_test_model();
    let mut analyzer = RuleAnalyzer::new();
    let res = analyzer.analyze(&model);
    println!("{:?}", res);
    assert!(res.is_ok());
}

#[test]
fn test_duplicate_evaluation_names() {
    let mut model = create_test_model();
    model.evaluations.push(Evaluation {
        name: "amount_check".to_string(), // Duplicate name
        evaluation_type: EvaluationType::Comparison,
        left: Some("amount".to_string()),
        operator: Some(">".to_string()),
        right: Some(Value::Number(num(1000.0))),
        operands: None,
        weight: Some(3),
        aggregation: None,
    });

    let mut analyzer = RuleAnalyzer::new();
    let result = analyzer.analyze(&model);
    assert!(matches!(
        result,
        Err(ref errors) if errors.iter().any(|e| matches!(e, AnalyzerError::DuplicateEvaluationName(_)))
    ));
}

#[test]
fn test_invalid_operand_reference() {
    let mut model = create_test_model();
    model.evaluations.push(Evaluation {
        name: "invalid_reference".to_string(),
        evaluation_type: EvaluationType::Logical,
        left: None,
        operator: Some("AND".to_string()),
        right: None,
        operands: Some(vec!["non_existent".to_string()]),
        weight: Some(3),
        aggregation: None,
    });

    let mut analyzer = RuleAnalyzer::new();
    let result = analyzer.analyze(&model);

    assert!(matches!(
        result,
        Err(ref errors) if errors.iter().any(|e| matches!(e, AnalyzerError::MissingOperandReference { .. }))
    ));
}

#[test]
fn test_circular_dependency() {
    let mut model = create_test_model();
    model.evaluations = vec![
        Evaluation {
            name: "eval1".to_string(),
            evaluation_type: EvaluationType::Logical,
            left: None,
            operator: Some("AND".to_string()),
            right: None,
            operands: Some(vec!["eval2".to_string()]),
            weight: Some(3),
            aggregation: None,
        },
        Evaluation {
            name: "eval2".to_string(),
            evaluation_type: EvaluationType::Logical,
            left: None,
            operator: Some("AND".to_string()),
            right: None,
            operands: Some(vec!["eval1".to_string()]),
            weight: Some(3),
            aggregation: None,
        },
    ];

    let mut analyzer = RuleAnalyzer::new();
    let result = analyzer.analyze(&model);
    assert!(matches!(
        result,
        Err(ref errors) if errors.iter().any(|e| matches!(e, AnalyzerError::CircularDependency { .. }))
    ));
}

#[test]
fn test_invalid_weight() {
    let mut model = create_test_model();
    model.evaluations.push(Evaluation {
        name: "invalid_weight".to_string(),
        evaluation_type: EvaluationType::Comparison,
        left: Some("amount".to_string()),
        operator: Some(">".to_string()),
        right: Some(Value::Number(num(1000.0))),
        operands: None,
        weight: Some(6), // Invalid weight > 5
        aggregation: None,
    });

    let mut analyzer = RuleAnalyzer::new();
    let result = analyzer.analyze(&model);
    assert!(matches!(
        result,
        Err(ref errors) if errors.iter().any(|e| matches!(e, AnalyzerError::InvalidWeight { .. }))
    ));
}

#[test]
fn test_valid_string_reference() {
    let model = LrolModel {
        model_id: "TEST001".to_string(),
        name: "Test Model".to_string(),
        description: Some("Test Description".to_string()),
        threshold: num(0.9),
        evaluations: vec![
            Evaluation {
                name: "base_check".to_string(),
                evaluation_type: EvaluationType::Comparison,
                left: Some("amount".to_string()),
                operator: Some(">".to_string()),
                right: Some(Value::Number(num(1000.0))),
                operands: None,
                weight: Some(3),
                aggregation: None,
            },
            Evaluation {
                name: "reference_check".to_string(),
                evaluation_type: EvaluationType::Comparison,
                left: Some("@base_check result".to_string()),
                operator: Some(">".to_string()),
                right: Some(Value::Number(num(100.0))),
                operands: None,
                weight: Some(3),
                aggregation: None,
            },
        ],
        actions: vec![Action {
            action_type: "flag_transaction".to_owned(),
            reason: "High amount detected".to_owned(),
        }],
        metadata: Some(Metadata{
            created_by: Some("test_user".to_owned()),
            created_at: Some("2024-01-01T12:00:00Z".to_owned()),
            last_updated: Some("2024-01-01T12:00:00Z".to_owned()),
            notes: Some("Test notes".to_owned())
        })
    };

    let mut analyzer = RuleAnalyzer::new();
    assert!(analyzer.analyze(&model).is_ok());
}

#[test]
fn test_invalid_string_reference() {
    let model = LrolModel {
        model_id: "TEST001".to_string(),
        name: "Test Model".to_string(),
        description: Some("Test Description".to_string()),
        threshold: num(0.9),
        evaluations: vec![Evaluation {
            name: "reference_check".to_string(),
            evaluation_type: EvaluationType::Comparison,
            left: Some("@non_existent_check value".to_string()),
            operator: Some(">".to_string()),
            right: Some(Value::Number(num(100.0))),
            operands: None,
            weight: Some(3),
            aggregation: None,
        }],
        actions: vec![Action {
            action_type: "flag_transaction".to_owned(),
            reason: "High amount detected".to_owned(),
        }],
        metadata: Some(Metadata{
            created_by: Some("test_user".to_owned()),
            created_at: Some("2024-01-01T12:00:00Z".to_owned()),
            last_updated: Some("2024-01-01T12:00:00Z".to_owned()),
            notes: Some("Test notes".to_owned())
        })
    };

    let mut analyzer = RuleAnalyzer::new();
    let result = analyzer.analyze(&model);
    assert!(matches!(
        result,
        Err(ref errors) if errors.iter().any(|e| matches!(e,
            AnalyzerError::InvalidStringReference {
                reference,
                ..
            } if reference == "non_existent_check"
        ))
    ));
}

#[test]
fn test_circular_string_reference() {
    let model = LrolModel {
        model_id: "TEST001".to_string(),
        name: "Test Model".to_string(),
        description: Some("Test Description".to_string()),
        threshold: num(0.9),
        evaluations: vec![
            Evaluation {
                name: "eval1".to_string(),
                evaluation_type: EvaluationType::Comparison,
                left: Some("@eval2 value".to_string()),
                operator: Some(">".to_string()),
                right: Some(Value::Number(num(100.0))),
                operands: None,
                weight: Some(3),
                aggregation: None,
            },
            Evaluation {
                name: "eval2".to_string(),
                evaluation_type: EvaluationType::Comparison,
                left: Some("@eval1 value".to_string()),
                operator: Some(">".to_string()),
                right: Some(Value::Number(num(100.0))),
                operands: None,
                weight: Some(3),
                aggregation: None,
            },
        ],
        actions: vec![Action {
            action_type: "flag_transaction".to_owned(),
            reason: "High amount detected".to_owned(),
        }],
        metadata: Some(Metadata{
            created_by: Some("test_user".to_owned()),
            created_at: Some("2024-01-01T12:00:00Z".to_owned()),
            last_updated: Some("2024-01-01T12:00:00Z".to_owned()),
            notes: Some("Test notes".to_owned())
        })
    };

    let mut analyzer = RuleAnalyzer::new();
    let result = analyzer.analyze(&model);
    assert!(matches!(
        result,
        Err(ref errors) if errors.iter().any(|e| matches!(e, AnalyzerError::CircularDependency { .. }))
    ));
}

#[test]
fn test_multiple_string_references() {
    let model = LrolModel {
        model_id: "TEST001".to_string(),
        name: "Test Model".to_string(),
        description: Some("Test Description".to_string()),
        threshold: num(0.9),
        evaluations: vec![
            Evaluation {
                name: "eval1".to_string(),
                evaluation_type: EvaluationType::Comparison,
                left: Some("amount".to_string()),
                operator: Some(">".to_string()),
                right: Some(Value::Number(num(100.0))),
                operands: None,
                weight: Some(3),
                aggregation: None,
            },
            Evaluation {
                name: "eval2".to_string(),
                evaluation_type: EvaluationType::Comparison,
                left: Some("value".to_string()),
                operator: Some("<".to_string()),
                right: Some(Value::Number(num(50.0))),
                operands: None,
                weight: Some(3),
                aggregation: None,
            },
            Evaluation {
                name: "combined_check".to_string(),
                evaluation_type: EvaluationType::Comparison,
                left: Some("@eval1 and @eval2 check".to_string()), // Not a valid expression but just using this to detect the two references
                operator: Some(">".to_string()),
                right: Some(Value::Number(num(75.0))),
                operands: None,
                weight: Some(3),
                aggregation: None,
            },
        ],
        actions: vec![Action {
            action_type: "flag_transaction".to_owned(),
            reason: "High amount detected".to_owned(),
        }],
        metadata: Some(Metadata{
            created_by: Some("test_user".to_owned()),
            created_at: Some("2024-01-01T12:00:00Z".to_owned()),
            last_updated: Some("2024-01-01T12:00:00Z".to_owned()),
            notes: Some("Test notes".to_owned())
        })
    };

    let mut analyzer = RuleAnalyzer::new();
    assert!(analyzer.analyze(&model).is_ok());
}

#[test]
fn test_valid_datetime_expression() {
    let model = LrolModel {
        model_id: "TEST001".to_string(),
        name: "Test Model".to_string(),
        description: None,
        threshold: num(0.9),
        evaluations: vec![Evaluation {
            name: "time_check".to_string(),
            evaluation_type: EvaluationType::Comparison,
            left: Some("transaction_time".to_string()),
            operator: Some(">".to_string()),
            right: Some(Value::String("datetime(now, '-2 hours')".to_string())),
            operands: None,
            weight: Some(3),
            aggregation: None,
        }],
        actions: vec![Action {
            action_type: "flag_transaction".to_string(),
            reason: "Transaction flagged based on tiered risk assessment.".to_string(),
        }],
        ..Default::default()
    };

    let mut analyzer = RuleAnalyzer::new();
    let res = analyzer.analyze(&model);
    assert!(res.is_ok());
}

#[test]
fn test_invalid_datetime_syntax() {
    let model = LrolModel {
        model_id: "TEST001".to_string(),
        name: "Test Model".to_string(),
        description: None,
        threshold: num(0.9),
        evaluations: vec![Evaluation {
            name: "time_check".to_string(),
            evaluation_type: EvaluationType::Comparison,
            left: Some("datetime(invalid syntax".to_string()),
            operator: Some(">".to_string()),
            right: Some(Value::Number(num(100.0))),
            operands: None,
            weight: Some(3),
            aggregation: None,
        }],
        actions: vec![Action {
            action_type: "flag_transaction".to_string(),
            reason: "Transaction flagged based on tiered risk assessment.".to_string(),
        }],
        ..Default::default()
    };

    let mut analyzer = RuleAnalyzer::new();
    let result = analyzer.analyze(&model);
    assert!(matches!(
        result,
        Err(ref errors) if errors.iter().any(|e| matches!(e,
            AnalyzerError::InvalidDateTimeExpression { .. }
        ))
    ));
}

#[test]
fn test_invalid_duration_format() {
    let model = LrolModel {
        model_id: "TEST001".to_string(),
        name: "Test Model".to_string(),
        description: None,
        threshold: num(0.9),
        evaluations: vec![Evaluation {
            name: "time_check".to_string(),
            evaluation_type: EvaluationType::Comparison,
            left: Some("transaction_time".to_string()),
            operator: Some(">".to_string()),
            right: Some(Value::String(
                "datetime(now, 'invalid duration')".to_string(),
            )),
            operands: None,
            weight: Some(3),
            aggregation: None,
        }],
        actions: vec![Action {
            action_type: "flag_transaction".to_string(),
            reason: "Transaction flagged based on tiered risk assessment.".to_string(),
        }],
        ..Default::default()
    };

    let mut analyzer = RuleAnalyzer::new();
    let result = analyzer.analyze(&model);
    assert!(matches!(
        result,
        Err(ref errors) if errors.iter().any(|e| matches!(e,
            AnalyzerError::InvalidDateTimeExpression { .. }
        ))
    ));
}

#[test]
fn test_valid_duration_formats() {
    let test_cases = vec![
        "datetime(now, '-2 hours')",
        "datetime(now, '1 day')",
        "datetime(now, '-30 minutes')",
        "datetime(now, '2 weeks')",
        "datetime(now, '-3 months')",
        "datetime(now, '1 year')",
    ];

    for expr in test_cases {
        assert!(
            RuleAnalyzer::parse_datetime_expression(expr).is_ok(),
            "Failed to parse valid expression: {}",
            expr
        );
    }
}

#[test]
fn test_datetime_with_timestamp() {
    let model = LrolModel {
        model_id: "TEST001".to_string(),
        name: "Test Model".to_string(),
        description: None,
        threshold: num(0.9),
        evaluations: vec![Evaluation {
            name: "time_check".to_string(),
            evaluation_type: EvaluationType::Comparison,
            left: Some("transaction_time".to_string()),
            operator: Some(">".to_string()),
            right: Some(Value::String(
                "datetime('2024-01-01', '-2 hours')".to_string(),
            )),
            operands: None,
            weight: Some(3),
            aggregation: None,
        }],
        actions: vec![Action {
            action_type: "flag_transaction".to_string(),
            reason: "Transaction flagged based on tiered risk assessment.".to_string(),
        }],
        ..Default::default()
    };

    let mut analyzer = RuleAnalyzer::new();
    assert!(analyzer.analyze(&model).is_ok());
}
