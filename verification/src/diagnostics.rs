//! What the analyzer finds wrong with a model.

use crate::decimal::{Decimal, DecimalView};
use crate::error::{decimal_digits, push_decimal, ParserError, ParserErrorView};
use crate::text::views;
use vstd::prelude::*;

verus! {

/// A finding of the analyzer.
#[derive(Debug, Clone, PartialEq)]
pub enum AnalyzerError {
    DuplicateEvaluationName(String),
    MissingOperandReference { evaluation_name: String, missing_operand: String },
    CircularDependency { evaluation_name: String, dependency_chain: Vec<String> },
    InvalidWeight { evaluation_name: String, weight: i32 },
    MissingRequiredField { evaluation_name: String, field_name: String },
    InvalidLogicalOperator { evaluation_name: String, operator: String },
    EmptyOperands(String),
    InvalidStringReference { evaluation_name: String, field_name: String, reference: String },
    InvalidDateTimeExpression {
        evaluation_name: String,
        field_name: String,
        expression: String,
        reason: String,
    },
    InvalidDurationFormat {
        evaluation_name: String,
        field_name: String,
        duration: String,
        reason: String,
    },
    InvalidThreshold { value: Decimal, reason: String },
    InvalidEvaluationType { evaluation_name: String, found_type: String },
    InvalidComparisonOperator { evaluation_name: String, operator: String },
    InvalidAggregationType { evaluation_name: String, aggregation: String },
    InvalidWeightRange { evaluation_name: String, weight: i32 },
    InvalidActionType { action_type: String },
    MissingActionReason { action_type: String },
    InvalidMetadataFormat { field: String, reason: String },
    MissingRequiredSchemaField { field: String },
}

/// What a finding of the analyzer stands for.
pub enum AnalyzerErrorView {
    DuplicateEvaluationName(Seq<char>),
    MissingOperandReference { evaluation_name: Seq<char>, missing_operand: Seq<char> },
    CircularDependency { evaluation_name: Seq<char>, dependency_chain: Seq<Seq<char>> },
    InvalidWeight { evaluation_name: Seq<char>, weight: i32 },
    MissingRequiredField { evaluation_name: Seq<char>, field_name: Seq<char> },
    InvalidLogicalOperator { evaluation_name: Seq<char>, operator: Seq<char> },
    EmptyOperands(Seq<char>),
    InvalidStringReference {
        evaluation_name: Seq<char>,
        field_name: Seq<char>,
        reference: Seq<char>,
    },
    InvalidDateTimeExpression {
        evaluation_name: Seq<char>,
        field_name: Seq<char>,
        expression: Seq<char>,
        reason: Seq<char>,
    },
    InvalidDurationFormat {
        evaluation_name: Seq<char>,
        field_name: Seq<char>,
        duration: Seq<char>,
        reason: Seq<char>,
    },
    InvalidThreshold { value: DecimalView, reason: Seq<char> },
    InvalidEvaluationType { evaluation_name: Seq<char>, found_type: Seq<char> },
    InvalidComparisonOperator { evaluation_name: Seq<char>, operator: Seq<char> },
    InvalidAggregationType { evaluation_name: Seq<char>, aggregation: Seq<char> },
    InvalidWeightRange { evaluation_name: Seq<char>, weight: i32 },
    InvalidActionType { action_type: Seq<char> },
    MissingActionReason { action_type: Seq<char> },
    InvalidMetadataFormat { field: Seq<char>, reason: Seq<char> },
    MissingRequiredSchemaField { field: Seq<char> },
}

impl View for AnalyzerError {
    type V = AnalyzerErrorView;

    open spec fn view(&self) -> AnalyzerErrorView {
        match self {
            AnalyzerError::DuplicateEvaluationName(name) => {
                AnalyzerErrorView::DuplicateEvaluationName(name@)
            },
            AnalyzerError::MissingOperandReference { evaluation_name, missing_operand } => {
                AnalyzerErrorView::MissingOperandReference {
                    evaluation_name: evaluation_name@,
                    missing_operand: missing_operand@,
                }
            },
            AnalyzerError::CircularDependency { evaluation_name, dependency_chain } => {
                AnalyzerErrorView::CircularDependency {
                    evaluation_name: evaluation_name@,
                    dependency_chain: views(dependency_chain@),
                }
            },
            AnalyzerError::InvalidWeight { evaluation_name, weight } => {
                AnalyzerErrorView::InvalidWeight {
                    evaluation_name: evaluation_name@,
                    weight: *weight,
                }
            },
            AnalyzerError::MissingRequiredField { evaluation_name, field_name } => {
                AnalyzerErrorView::MissingRequiredField {
                    evaluation_name: evaluation_name@,
                    field_name: field_name@,
                }
            },
            AnalyzerError::InvalidLogicalOperator { evaluation_name, operator } => {
                AnalyzerErrorView::InvalidLogicalOperator {
                    evaluation_name: evaluation_name@,
                    operator: operator@,
                }
            },
            AnalyzerError::EmptyOperands(name) => AnalyzerErrorView::EmptyOperands(name@),
            AnalyzerError::InvalidStringReference { evaluation_name, field_name, reference } => {
                AnalyzerErrorView::InvalidStringReference {
                    evaluation_name: evaluation_name@,
                    field_name: field_name@,
                    reference: reference@,
                }
            },
            AnalyzerError::InvalidDateTimeExpression {
                evaluation_name,
                field_name,
                expression,
                reason,
            } => AnalyzerErrorView::InvalidDateTimeExpression {
                evaluation_name: evaluation_name@,
                field_name: field_name@,
                expression: expression@,
                reason: reason@,
            },
            AnalyzerError::InvalidDurationFormat {
                evaluation_name,
                field_name,
                duration,
                reason,
            } => AnalyzerErrorView::InvalidDurationFormat {
                evaluation_name: evaluation_name@,
                field_name: field_name@,
                duration: duration@,
                reason: reason@,
            },
            AnalyzerError::InvalidThreshold { value, reason } => {
                AnalyzerErrorView::InvalidThreshold { value: value@, reason: reason@ }
            },
            AnalyzerError::InvalidEvaluationType { evaluation_name, found_type } => {
                AnalyzerErrorView::InvalidEvaluationType {
                    evaluation_name: evaluation_name@,
                    found_type: found_type@,
                }
            },
            AnalyzerError::InvalidComparisonOperator { evaluation_name, operator } => {
                AnalyzerErrorView::InvalidComparisonOperator {
                    evaluation_name: evaluation_name@,
                    operator: operator@,
                }
            },
            AnalyzerError::InvalidAggregationType { evaluation_name, aggregation } => {
                AnalyzerErrorView::InvalidAggregationType {
                    evaluation_name: evaluation_name@,
                    aggregation: aggregation@,
                }
            },
            AnalyzerError::InvalidWeightRange { evaluation_name, weight } => {
                AnalyzerErrorView::InvalidWeightRange {
                    evaluation_name: evaluation_name@,
                    weight: *weight,
                }
            },
            AnalyzerError::InvalidActionType { action_type } => {
                AnalyzerErrorView::InvalidActionType { action_type: action_type@ }
            },
            AnalyzerError::MissingActionReason { action_type } => {
                AnalyzerErrorView::MissingActionReason { action_type: action_type@ }
            },
            AnalyzerError::InvalidMetadataFormat { field, reason } => {
                AnalyzerErrorView::InvalidMetadataFormat { field: field@, reason: reason@ }
            },
            AnalyzerError::MissingRequiredSchemaField { field } => {
                AnalyzerErrorView::MissingRequiredSchemaField { field: field@ }
            },
        }
    }
}

/// A finding of the parser or of the analyzer.
#[derive(Debug, Clone, PartialEq)]
pub enum ValidationError {
    Parser(ParserError),
    Analyzer(AnalyzerError),
}

/// What a finding of validation stands for.
pub enum ValidationErrorView {
    Parser(ParserErrorView),
    Analyzer(AnalyzerErrorView),
}

impl View for ValidationError {
    type V = ValidationErrorView;

    open spec fn view(&self) -> ValidationErrorView {
        match self {
            ValidationError::Parser(e) => ValidationErrorView::Parser(e@),
            ValidationError::Analyzer(e) => ValidationErrorView::Analyzer(e@),
        }
    }
}

/// A text between double quotes.
pub open spec fn quoted(s: Seq<char>) -> Seq<char> {
    seq!['"'] + s + seq!['"']
}

/// The texts `items[..n]` in quotes, with `, ` between them.
pub open spec fn quoted_list(items: Seq<Seq<char>>, n: int) -> Seq<char>
    decreases n,
{
    if n <= 0 {
        Seq::empty()
    } else if n == 1 {
        quoted(items[0])
    } else {
        quoted_list(items, n - 1) + ", "@ + quoted(items[n - 1])
    }
}

/// An integer in decimal digits, with a minus sign where it is negative.
pub open spec fn integer_text(n: int) -> Seq<char> {
    if n < 0 {
        seq!['-'] + decimal_digits((-n) as nat)
    } else {
        decimal_digits(n as nat)
    }
}

/// `name: value`.
pub open spec fn field(name: Seq<char>, value: Seq<char>) -> Seq<char> {
    name + ": "@ + value
}

/// `Variant(value)`.
pub open spec fn tuple_text(variant: Seq<char>, value: Seq<char>) -> Seq<char> {
    variant + "("@ + value + ")"@
}

/// `Variant { fields }`.
pub open spec fn record_text(variant: Seq<char>, fields: Seq<char>) -> Seq<char> {
    variant + " { "@ + fields + " }"@
}

/// Two fields with `, ` between them.
pub open spec fn and_field(fields: Seq<char>, name: Seq<char>, value: Seq<char>) -> Seq<char> {
    fields + ", "@ + field(name, value)
}

impl AnalyzerErrorView {
    /// The finding written out: the name of its kind and its fields, texts
    /// in quotes.
    pub open spec fn text(self) -> Seq<char> {
        match self {
            AnalyzerErrorView::DuplicateEvaluationName(name) => tuple_text(
                "DuplicateEvaluationName"@,
                quoted(name),
            ),
            AnalyzerErrorView::MissingOperandReference { evaluation_name, missing_operand } => {
                record_text(
                    "MissingOperandReference"@,
                    and_field(
                        field("evaluation_name"@, quoted(evaluation_name)),
                        "missing_operand"@,
                        quoted(missing_operand),
                    ),
                )
            },
            AnalyzerErrorView::CircularDependency { evaluation_name, dependency_chain } => {
                record_text(
                    "CircularDependency"@,
                    and_field(
                        field("evaluation_name"@, quoted(evaluation_name)),
                        "dependency_chain"@,
                        "["@ + quoted_list(dependency_chain, dependency_chain.len() as int) + "]"@,
                    ),
                )
            },
            AnalyzerErrorView::InvalidWeight { evaluation_name, weight } => record_text(
                "InvalidWeight"@,
                and_field(
                    field("evaluation_name"@, quoted(evaluation_name)),
                    "weight"@,
                    integer_text(weight as int),
                ),
            ),
            AnalyzerErrorView::MissingRequiredField { evaluation_name, field_name } => record_text(
                "MissingRequiredField"@,
                and_field(
                    field("evaluation_name"@, quoted(evaluation_name)),
                    "field_name"@,
                    quoted(field_name),
                ),
            ),
            AnalyzerErrorView::InvalidLogicalOperator { evaluation_name, operator } => record_text(
                "InvalidLogicalOperator"@,
                and_field(
                    field("evaluation_name"@, quoted(evaluation_name)),
                    "operator"@,
                    quoted(operator),
                ),
            ),
            AnalyzerErrorView::EmptyOperands(name) => tuple_text("EmptyOperands"@, quoted(name)),
            AnalyzerErrorView::InvalidStringReference {
                evaluation_name,
                field_name,
                reference,
            } => record_text(
                "InvalidStringReference"@,
                and_field(
                    and_field(
                        field("evaluation_name"@, quoted(evaluation_name)),
                        "field_name"@,
                        quoted(field_name),
                    ),
                    "reference"@,
                    quoted(reference),
                ),
            ),
            AnalyzerErrorView::InvalidDateTimeExpression {
                evaluation_name,
                field_name,
                expression,
                reason,
            } => record_text(
                "InvalidDateTimeExpression"@,
                and_field(
                    and_field(
                        and_field(
                            field("evaluation_name"@, quoted(evaluation_name)),
                            "field_name"@,
                            quoted(field_name),
                        ),
                        "expression"@,
                        quoted(expression),
                    ),
                    "reason"@,
                    quoted(reason),
                ),
            ),
            AnalyzerErrorView::InvalidDurationFormat {
                evaluation_name,
                field_name,
                duration,
                reason,
            } => record_text(
                "InvalidDurationFormat"@,
                and_field(
                    and_field(
                        and_field(
                            field("evaluation_name"@, quoted(evaluation_name)),
                            "field_name"@,
                            quoted(field_name),
                        ),
                        "duration"@,
                        quoted(duration),
                    ),
                    "reason"@,
                    quoted(reason),
                ),
            ),
            AnalyzerErrorView::InvalidThreshold { value, reason } => record_text(
                "InvalidThreshold"@,
                and_field(field("value"@, value.lexeme()), "reason"@, quoted(reason)),
            ),
            AnalyzerErrorView::InvalidEvaluationType { evaluation_name, found_type } => record_text(
                "InvalidEvaluationType"@,
                and_field(
                    field("evaluation_name"@, quoted(evaluation_name)),
                    "found_type"@,
                    quoted(found_type),
                ),
            ),
            AnalyzerErrorView::InvalidComparisonOperator { evaluation_name, operator } => {
                record_text(
                    "InvalidComparisonOperator"@,
                    and_field(
                        field("evaluation_name"@, quoted(evaluation_name)),
                        "operator"@,
                        quoted(operator),
                    ),
                )
            },
            AnalyzerErrorView::InvalidAggregationType { evaluation_name, aggregation } => {
                record_text(
                    "InvalidAggregationType"@,
                    and_field(
                        field("evaluation_name"@, quoted(evaluation_name)),
                        "aggregation"@,
                        quoted(aggregation),
                    ),
                )
            },
            AnalyzerErrorView::InvalidWeightRange { evaluation_name, weight } => record_text(
                "InvalidWeightRange"@,
                and_field(
                    field("evaluation_name"@, quoted(evaluation_name)),
                    "weight"@,
                    integer_text(weight as int),
                ),
            ),
            AnalyzerErrorView::InvalidActionType { action_type } => record_text(
                "InvalidActionType"@,
                field("action_type"@, quoted(action_type)),
            ),
            AnalyzerErrorView::MissingActionReason { action_type } => record_text(
                "MissingActionReason"@,
                field("action_type"@, quoted(action_type)),
            ),
            AnalyzerErrorView::InvalidMetadataFormat { field: name, reason } => record_text(
                "InvalidMetadataFormat"@,
                and_field(field("field"@, quoted(name)), "reason"@, quoted(reason)),
            ),
            AnalyzerErrorView::MissingRequiredSchemaField { field: name } => record_text(
                "MissingRequiredSchemaField"@,
                field("field"@, quoted(name)),
            ),
        }
    }
}

/// The text `s` in quotes.
pub fn quote(s: &str) -> (r: String)
    ensures
        r@ == quoted(s@),
{
    let mut out = String::new();
    out.push('"');
    out.append(s);
    out.push('"');
    assert(out@ =~= quoted(s@));
    out
}

/// The texts of `items` in quotes, with `, ` between them.
pub fn quote_list(items: &Vec<String>) -> (r: String)
    ensures
        r@ == quoted_list(views(items@), items@.len() as int),
{
    let mut out = String::new();
    let mut i: usize = 0;
    while i < items.len()
        invariant
            i <= items@.len(),
            out@ == quoted_list(views(items@), i as int),
        decreases items@.len() - i,
    {
        if i > 0 {
            out.append(", ");
        }
        let q = quote(items[i].as_str());
        out.append(q.as_str());
        proof {
            assert(views(items@)[i as int] == items@[i as int]@);
            if i == 0 {
                assert(out@ =~= quoted(views(items@)[0]));
            }
        }
        i += 1;
    }
    out
}

/// The integer `n` in decimal digits.
pub fn integer_string(n: i32) -> (r: String)
    ensures
        r@ == integer_text(n as int),
{
    let mut out = String::new();
    if n < 0 {
        out.push('-');
        let magnitude: usize = (0 - n as i64) as usize;
        push_decimal(&mut out, magnitude);
        assert(out@ =~= integer_text(n as int));
    } else {
        push_decimal(&mut out, n as usize);
        assert(out@ =~= integer_text(n as int));
    }
    out
}

/// `name: value`.
pub fn field_string(name: &str, value: &str) -> (r: String)
    ensures
        r@ == field(name@, value@),
{
    let mut out = name.to_string();
    out.append(": ");
    out.append(value);
    out
}

/// `Variant(value)`.
pub fn tuple_string(variant: &str, value: &str) -> (r: String)
    ensures
        r@ == tuple_text(variant@, value@),
{
    let mut out = variant.to_string();
    out.append("(");
    out.append(value);
    out.append(")");
    out
}

/// `Variant { fields }`.
pub fn record_string(variant: &str, fields: &str) -> (r: String)
    ensures
        r@ == record_text(variant@, fields@),
{
    let mut out = variant.to_string();
    out.append(" { ");
    out.append(fields);
    out.append(" }");
    out
}

/// Adds the field `name: value` behind those of `fields`.
pub fn add_field(fields: String, name: &str, value: &str) -> (r: String)
    ensures
        r@ == and_field(fields@, name@, value@),
{
    let mut out = fields;
    out.append(", ");
    let f = field_string(name, value);
    out.append(f.as_str());
    out
}

/// The fields of a finding that names an evaluation and one more text.
fn named_pair(evaluation_name: &str, name: &str, value: &str) -> (r: String)
    ensures
        r@ == and_field(field("evaluation_name"@, quoted(evaluation_name@)), name@, value@),
{
    let q = quote(evaluation_name);
    let first = field_string("evaluation_name", q.as_str());
    add_field(first, name, value)
}

impl AnalyzerError {
    /// The finding written out: the name of its kind and its fields, texts
    /// in quotes.
    pub fn describe(&self) -> (s: String)
        ensures
            s@ == self@.text(),
    {
        match self {
            AnalyzerError::DuplicateEvaluationName(name) => {
                let q = quote(name.as_str());
                tuple_string("DuplicateEvaluationName", q.as_str())
            },
            AnalyzerError::MissingOperandReference { evaluation_name, missing_operand } => {
                let q = quote(missing_operand.as_str());
                let fields = named_pair(evaluation_name.as_str(), "missing_operand", q.as_str());
                record_string("MissingOperandReference", fields.as_str())
            },
            AnalyzerError::CircularDependency { evaluation_name, dependency_chain } => {
                let mut list = "[".to_string();
                let inner = quote_list(dependency_chain);
                list.append(inner.as_str());
                list.append("]");
                let fields = named_pair(
                    evaluation_name.as_str(),
                    "dependency_chain",
                    list.as_str(),
                );
                record_string("CircularDependency", fields.as_str())
            },
            AnalyzerError::InvalidWeight { evaluation_name, weight } => {
                let w = integer_string(*weight);
                let fields = named_pair(evaluation_name.as_str(), "weight", w.as_str());
                record_string("InvalidWeight", fields.as_str())
            },
            AnalyzerError::MissingRequiredField { evaluation_name, field_name } => {
                let q = quote(field_name.as_str());
                let fields = named_pair(evaluation_name.as_str(), "field_name", q.as_str());
                record_string("MissingRequiredField", fields.as_str())
            },
            AnalyzerError::InvalidLogicalOperator { evaluation_name, operator } => {
                let q = quote(operator.as_str());
                let fields = named_pair(evaluation_name.as_str(), "operator", q.as_str());
                record_string("InvalidLogicalOperator", fields.as_str())
            },
            AnalyzerError::EmptyOperands(name) => {
                let q = quote(name.as_str());
                tuple_string("EmptyOperands", q.as_str())
            },
            AnalyzerError::InvalidStringReference { evaluation_name, field_name, reference } => {
                let q = quote(field_name.as_str());
                let fields = named_pair(evaluation_name.as_str(), "field_name", q.as_str());
                let r = quote(reference.as_str());
                let fields = add_field(fields, "reference", r.as_str());
                record_string("InvalidStringReference", fields.as_str())
            },
            AnalyzerError::InvalidDateTimeExpression {
                evaluation_name,
                field_name,
                expression,
                reason,
            } => {
                let q = quote(field_name.as_str());
                let fields = named_pair(evaluation_name.as_str(), "field_name", q.as_str());
                let x = quote(expression.as_str());
                let fields = add_field(fields, "expression", x.as_str());
                let r = quote(reason.as_str());
                let fields = add_field(fields, "reason", r.as_str());
                record_string("InvalidDateTimeExpression", fields.as_str())
            },
            AnalyzerError::InvalidDurationFormat {
                evaluation_name,
                field_name,
                duration,
                reason,
            } => {
                let q = quote(field_name.as_str());
                let fields = named_pair(evaluation_name.as_str(), "field_name", q.as_str());
                let x = quote(duration.as_str());
                let fields = add_field(fields, "duration", x.as_str());
                let r = quote(reason.as_str());
                let fields = add_field(fields, "reason", r.as_str());
                record_string("InvalidDurationFormat", fields.as_str())
            },
            AnalyzerError::InvalidThreshold { value, reason } => {
                let v = value.to_string();
                let first = field_string("value", v.as_str());
                let r = quote(reason.as_str());
                let fields = add_field(first, "reason", r.as_str());
                record_string("InvalidThreshold", fields.as_str())
            },
            AnalyzerError::InvalidEvaluationType { evaluation_name, found_type } => {
                let q = quote(found_type.as_str());
                let fields = named_pair(evaluation_name.as_str(), "found_type", q.as_str());
                record_string("InvalidEvaluationType", fields.as_str())
            },
            AnalyzerError::InvalidComparisonOperator { evaluation_name, operator } => {
                let q = quote(operator.as_str());
                let fields = named_pair(evaluation_name.as_str(), "operator", q.as_str());
                record_string("InvalidComparisonOperator", fields.as_str())
            },
            AnalyzerError::InvalidAggregationType { evaluation_name, aggregation } => {
                let q = quote(aggregation.as_str());
                let fields = named_pair(evaluation_name.as_str(), "aggregation", q.as_str());
                record_string("InvalidAggregationType", fields.as_str())
            },
            AnalyzerError::InvalidWeightRange { evaluation_name, weight } => {
                let w = integer_string(*weight);
                let fields = named_pair(evaluation_name.as_str(), "weight", w.as_str());
                record_string("InvalidWeightRange", fields.as_str())
            },
            AnalyzerError::InvalidActionType { action_type } => {
                let q = quote(action_type.as_str());
                let fields = field_string("action_type", q.as_str());
                record_string("InvalidActionType", fields.as_str())
            },
            AnalyzerError::MissingActionReason { action_type } => {
                let q = quote(action_type.as_str());
                let fields = field_string("action_type", q.as_str());
                record_string("MissingActionReason", fields.as_str())
            },
            AnalyzerError::InvalidMetadataFormat { field, reason } => {
                let q = quote(field.as_str());
                let first = field_string("field", q.as_str());
                let r = quote(reason.as_str());
                let fields = add_field(first, "reason", r.as_str());
                record_string("InvalidMetadataFormat", fields.as_str())
            },
            AnalyzerError::MissingRequiredSchemaField { field } => {
                let q = quote(field.as_str());
                let fields = field_string("field", q.as_str());
                record_string("MissingRequiredSchemaField", fields.as_str())
            },
        }
    }
}

impl ValidationErrorView {
    /// The sentence that reports the finding.
    pub open spec fn text(self) -> Seq<char> {
        match self {
            ValidationErrorView::Parser(e) => "Parser error: "@ + e.text(),
            ValidationErrorView::Analyzer(e) => "Analyzer error: "@ + e.text(),
        }
    }
}

impl ValidationError {
    /// The sentence that reports the finding.
    pub fn to_string(&self) -> (s: String)
        ensures
            s@ == self@.text(),
    {
        match self {
            ValidationError::Parser(e) => {
                let mut out = "Parser error: ".to_string();
                let t = e.to_string();
                out.append(t.as_str());
                out
            },
            ValidationError::Analyzer(e) => {
                let mut out = "Analyzer error: ".to_string();
                let t = e.describe();
                out.append(t.as_str());
                out
            },
        }
    }
}

} // verus!
