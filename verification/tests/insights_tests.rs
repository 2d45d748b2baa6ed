use lrol::decimal::Decimal;
use lrol::insights::{
    analyze_model, assign, calculate_complexity_score, check_for_warnings,
    collect_evaluation_dependencies, find_datetime_expression, find_entry, generate_suggestions,
    is_recommended_action, AnalysisWarning, WarningCategory, WarningSeverity,
};
use lrol::parser::LrolModel;
use lrol::types::{Action, Evaluation, EvaluationType, Value};

fn s(text: &str) -> String {
    text.to_string()
}

fn evaluation(name: &str, evaluation_type: EvaluationType) -> Evaluation {
    Evaluation {
        name: s(name),
        evaluation_type,
        left: None,
        operator: None,
        right: None,
        operands: None,
        weight: None,
        aggregation: None,
    }
}

fn model(evaluations: Vec<Evaluation>) -> LrolModel {
    LrolModel {
        model_id: s("M1"),
        name: s("N"),
        description: Some(s("d")),
        threshold: Decimal::parse("0.5").unwrap(),
        evaluations,
        actions: vec![Action { action_type: s("flag_transaction"), reason: s("r") }],
        metadata: None,
    }
}

fn sample() -> LrolModel {
    let mut a = evaluation("a", EvaluationType::Comparison);
    a.left = Some(s("@b and @c"));
    a.right = Some(Value::String(s("datetime(now) @d")));
    a.weight = Some(2);
    let mut b = evaluation("b", EvaluationType::Logical);
    b.operands = Some(vec![s("c"), s("d"), s("e")]);
    b.weight = Some(4);
    let mut c = evaluation("c", EvaluationType::Comparison);
    c.left = Some(s("datetime(now, '1 day')"));
    c.right = Some(Value::Bool(true));
    let d = evaluation("d", EvaluationType::TimeBased);
    let mut again = evaluation("a", EvaluationType::Comparison);
    again.weight = Some(5);
    model(vec![a, b, c, d, again])
}

#[test]
fn the_complexity_adds_up_in_tenths() {
    // a: 10 + 3 * 2 + 3 * 1 + 5; b: 10 + 5 * 3; c: 10 + 5; d: 10; a again: 10
    assert_eq!(calculate_complexity_score(&sample()), 24 + 25 + 15 + 10 + 10);
    assert_eq!(calculate_complexity_score(&model(vec![])), 0);
    assert_eq!(
        calculate_complexity_score(&model(vec![evaluation("x", EvaluationType::Conditional)])),
        10
    );
}

#[test]
fn a_model_is_described_by_its_numbers_and_details() {
    let report = analyze_model(&sample(), "rules/sample.json");
    assert_eq!(report.file_path, "rules/sample.json");
    assert_eq!(report.summary.total_evaluations, 5);
    assert_eq!(
        report.summary.evaluation_types,
        vec![(s("Comparison"), 3), (s("Logical"), 1), (s("TimeBased"), 1)]
    );
    assert_eq!(report.summary.max_evaluation_depth, 0);
    assert_eq!(report.summary.dependency_count, 2);
    assert_eq!(report.summary.complexity_tenths, 84);
    let graph = &report.details.evaluation_dependencies;
    assert_eq!(graph.len(), 2);
    assert_eq!(graph.key_at(0), "a");
    assert_eq!(graph.dependencies_at(0), &vec![s("b"), s("c"), s("d")]);
    assert_eq!(graph.key_at(1), "b");
    assert_eq!(graph.dependencies_at(1), &vec![s("c"), s("d"), s("e")]);
    assert_eq!(
        report.details.datetime_expressions,
        vec![s("datetime(now) @d"), s("datetime(now, '1 day')")]
    );
    assert!(report.details.reference_chains.is_empty());
    assert_eq!(report.details.evaluation_weights, vec![(s("a"), 5), (s("b"), 4)]);
    assert!(report.warnings.is_empty());
    assert_eq!(
        report.suggestions,
        vec![s("Consider normalizing evaluation weights to improve rule balance")]
    );
}

#[test]
fn dependencies_are_operands_and_references() {
    let mut e = evaluation("e", EvaluationType::Logical);
    assert_eq!(collect_evaluation_dependencies(&e), Vec::<String>::new());
    e.operands = Some(vec![s("o")]);
    e.left = Some(s("@l1 x @l2"));
    e.right = Some(Value::String(s("@r")));
    assert_eq!(
        collect_evaluation_dependencies(&e),
        vec![s("o"), s("l1"), s("l2"), s("r")]
    );
    e.right = Some(Value::Array(vec![Value::String(s("@hidden"))]));
    assert_eq!(collect_evaluation_dependencies(&e), vec![s("o"), s("l1"), s("l2")]);
}

#[test]
fn the_left_side_comes_before_the_right_side() {
    let mut e = evaluation("e", EvaluationType::Comparison);
    assert_eq!(find_datetime_expression(&e), None);
    e.right = Some(Value::String(s("datetime(right)")));
    assert_eq!(find_datetime_expression(&e), Some(s("datetime(right)")));
    e.left = Some(s("plain"));
    assert_eq!(find_datetime_expression(&e), Some(s("datetime(right)")));
    e.left = Some(s("datetime(left"));
    assert_eq!(find_datetime_expression(&e), Some(s("datetime(left")));
    e.left = None;
    e.right = Some(Value::String(s("no datetime(")));
    assert_eq!(find_datetime_expression(&e), None);
}

#[test]
fn more_than_ten_evaluations_are_a_warning() {
    let ten: Vec<Evaluation> =
        (0..10).map(|i| evaluation(&format!("e{}", i), EvaluationType::Conditional)).collect();
    let mut warnings = vec![];
    check_for_warnings(&model(ten.clone()), &mut warnings);
    assert_eq!(warnings, vec![]);
    let mut eleven = ten;
    eleven.push(evaluation("last", EvaluationType::Conditional));
    check_for_warnings(&model(eleven), &mut warnings);
    assert_eq!(
        warnings,
        vec![AnalysisWarning {
            severity: WarningSeverity::Medium,
            category: WarningCategory::Complexity,
            message: s("High number of evaluations may impact maintainability"),
            context: s("Total evaluations: 11"),
        }]
    );
}

#[test]
fn actions_of_another_type_are_a_warning() {
    let mut m = model(vec![]);
    m.actions = vec![
        Action { action_type: s("flag_transaction"), reason: s("r") },
        Action { action_type: s("notify"), reason: s("r") },
        Action { action_type: s("block_transaction"), reason: s("r") },
        Action { action_type: s("send_alert"), reason: s("r") },
        Action { action_type: s("Send_Alert"), reason: s("r") },
    ];
    let mut warnings = vec![];
    check_for_warnings(&m, &mut warnings);
    let message = "While user defined action types are accepted. We recommend that you use one the following action types 'flag_transaction', 'block_transaction' or 'send_alert'";
    assert_eq!(
        warnings,
        vec![
            AnalysisWarning {
                severity: WarningSeverity::Medium,
                category: WarningCategory::BestPractice,
                message: s(message),
                context: s("Action type: 'notify'"),
            },
            AnalysisWarning {
                severity: WarningSeverity::Medium,
                category: WarningCategory::BestPractice,
                message: s(message),
                context: s("Action type: 'Send_Alert'"),
            },
        ]
    );
    assert!(is_recommended_action("send_alert"));
    assert!(!is_recommended_action(""));
}

#[test]
fn suggestions_are_made_where_they_apply() {
    let mut m = model(vec![]);
    let mut suggestions = vec![s("kept")];
    generate_suggestions(&m, &mut suggestions);
    assert_eq!(suggestions, vec![s("kept")]);
    m.description = None;
    let mut light = evaluation("l", EvaluationType::Conditional);
    light.weight = Some(3);
    m.evaluations = vec![light.clone()];
    let mut suggestions = vec![];
    generate_suggestions(&m, &mut suggestions);
    assert_eq!(
        suggestions,
        vec![s("Consider adding a description to improve rule documentation")]
    );
    let mut heavy = evaluation("h", EvaluationType::Conditional);
    heavy.weight = Some(4);
    m.evaluations = vec![light.clone(), heavy, light];
    let mut suggestions = vec![];
    generate_suggestions(&m, &mut suggestions);
    assert_eq!(
        suggestions,
        vec![
            s("Consider adding a description to improve rule documentation"),
            s("Consider normalizing evaluation weights to improve rule balance"),
        ]
    );
}

#[test]
fn pairs_are_set_by_their_key() {
    let mut pairs: Vec<(String, i32)> = vec![];
    assert_eq!(find_entry(&pairs, "a"), None);
    assign(&mut pairs, "a", 1);
    assign(&mut pairs, "b", 2);
    assign(&mut pairs, "a", 3);
    assert_eq!(pairs, vec![(s("a"), 3), (s("b"), 2)]);
    assert_eq!(find_entry(&pairs, "b"), Some(1));
    assert_eq!(find_entry(&pairs, "c"), None);
}

#[test]
fn kinds_have_their_labels() {
    assert_eq!(EvaluationType::Comparison.label_text(), "Comparison");
    assert_eq!(EvaluationType::Logical.label_text(), "Logical");
    assert_eq!(EvaluationType::Aggregation.label_text(), "Aggregation");
    assert_eq!(EvaluationType::TimeBased.label_text(), "TimeBased");
    assert_eq!(EvaluationType::Conditional.label_text(), "Conditional");
}
