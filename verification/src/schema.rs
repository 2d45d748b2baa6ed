//! The schema pass of the analyzer: what a complete model holds, and the
//! vocabularies of its evaluations.

use crate::analyzer::RuleAnalyzer;
use crate::decimal::digit_of;
use crate::diagnostics::{AnalyzerError, AnalyzerErrorView};
use crate::graph::contains_name;
use crate::parser::{logical_operator, LrolModel, ModelView};
use crate::text::{
    ascii_digit, digit_value, is_ascii_digit, is_unicode_space, to_chars, trim, trimmed,
    unicode_space, view_opt, views,
};
use crate::types::{
    Action, ActionView, Evaluation, EvaluationType, EvaluationView, Metadata, MetadataView,
};
use vstd::prelude::*;

verus! {

/// The names of the kinds of evaluation.
pub open spec fn evaluation_type_names() -> Seq<Seq<char>> {
    seq!["comparison"@, "aggregation"@, "logical"@, "time-based"@, "conditional"@]
}

/// The operators of a comparison.
pub open spec fn comparison_operators() -> Seq<Seq<char>> {
    seq![">"@, "<"@, ">="@, "<="@, "=="@, "!="@, "IN"@, "NOT IN"@, "LIKE"@, "NOT LIKE"@]
}

/// The operators of a logical evaluation.
pub open spec fn logical_operators() -> Seq<Seq<char>> {
    seq!["AND"@, "OR"@]
}

/// One of the operators of a comparison.
pub open spec fn comparison_operator(op: Seq<char>) -> bool {
    comparison_operators().contains(op)
}

/// A weight that an evaluation may have.
pub open spec fn weight_in_range(weight: i32) -> bool {
    1 <= weight <= 5
}

/// A text that holds nothing but whitespace.
pub open spec fn blank(s: Seq<char>) -> bool {
    trimmed(s, None).len() == 0
}

/// The name of every kind of evaluation is in the vocabulary.
pub proof fn lemma_type_names_known(t: EvaluationType)
    ensures
        evaluation_type_names().contains(t.name()),
{
    let names = evaluation_type_names();
    match t {
        EvaluationType::Comparison => {
            assert(names[0] == t.name());
        },
        EvaluationType::Aggregation => {
            assert(names[1] == t.name());
        },
        EvaluationType::Logical => {
            assert(names[2] == t.name());
        },
        EvaluationType::TimeBased => {
            assert(names[3] == t.name());
        },
        EvaluationType::Conditional => {
            assert(names[4] == t.name());
        },
    }
}

/// The schema pass never finds an evaluation of an unknown kind: every kind
/// that an evaluation can have is in the vocabulary.
pub proof fn lemma_kinds_are_always_known(e: EvaluationView)
    ensures
        forall|i: int|
            0 <= i < evaluation_schema_errors(e).len() ==> !((#[trigger] evaluation_schema_errors(
                e,
            )[i]) is InvalidEvaluationType),
{
    lemma_type_names_known(e.evaluation_type);
}

/// The vocabulary of logical operators holds `AND` and `OR` and nothing
/// else.
pub proof fn lemma_logical_operators(op: Seq<char>)
    ensures
        logical_operators().contains(op) <==> logical_operator(op),
{
    let ops = logical_operators();
    if logical_operator(op) {
        if op == "AND"@ {
            assert(ops[0] == op);
        } else {
            assert(ops[1] == op);
        }
    }
}

/// The vocabularies that a model is held against.
#[derive(Debug)]
pub struct SchemaValidator {
    valid_evaluation_types: Vec<String>,
    valid_comparison_operators: Vec<String>,
    valid_logical_operators: Vec<String>,
}

impl SchemaValidator {
    /// The vocabularies are the fixed ones.
    #[verifier::type_invariant]
    pub closed spec fn wf(self) -> bool {
        &&& views(self.valid_evaluation_types@) == evaluation_type_names()
        &&& views(self.valid_comparison_operators@) == comparison_operators()
        &&& views(self.valid_logical_operators@) == logical_operators()
    }

    /// The names of the kinds of evaluation that the validator knows.
    pub closed spec fn evaluation_types(&self) -> Seq<Seq<char>> {
        views(self.valid_evaluation_types@)
    }

    /// The operators of a comparison that the validator knows.
    pub closed spec fn comparison_operators(&self) -> Seq<Seq<char>> {
        views(self.valid_comparison_operators@)
    }

    /// The operators of a logical evaluation that the validator knows.
    pub closed spec fn logical_operators(&self) -> Seq<Seq<char>> {
        views(self.valid_logical_operators@)
    }

    /// The validator with the vocabularies of the language.
    pub fn new() -> (validator: SchemaValidator)
        ensures
            validator.evaluation_types() == evaluation_type_names(),
            validator.comparison_operators() == comparison_operators(),
            validator.logical_operators() == logical_operators(),
    {
        let mut types: Vec<String> = Vec::new();
        types.push("comparison".to_string());
        types.push("aggregation".to_string());
        types.push("logical".to_string());
        types.push("time-based".to_string());
        types.push("conditional".to_string());
        let mut logical: Vec<String> = Vec::new();
        logical.push("AND".to_string());
        logical.push("OR".to_string());
        let mut comparison: Vec<String> = Vec::new();
        comparison.push(">".to_string());
        comparison.push("<".to_string());
        comparison.push(">=".to_string());
        comparison.push("<=".to_string());
        comparison.push("==".to_string());
        comparison.push("!=".to_string());
        comparison.push("IN".to_string());
        comparison.push("NOT IN".to_string());
        comparison.push("LIKE".to_string());
        comparison.push("NOT LIKE".to_string());
        proof {
            assert(views(types@) =~= evaluation_type_names());
            assert(views(logical@) =~= logical_operators());
            assert(views(comparison@) =~= comparison_operators());
        }
        SchemaValidator {
            valid_evaluation_types: types,
            valid_comparison_operators: comparison,
            valid_logical_operators: logical,
        }
    }

    /// Whether `name` names a kind of evaluation.
    pub fn is_evaluation_type(&self, name: &String) -> (b: bool)
        ensures
            b == evaluation_type_names().contains(name@),
    {
        proof {
            use_type_invariant(self);
        }
        contains_name(&self.valid_evaluation_types, name)
    }

    /// Whether `op` is an operator of a comparison.
    pub fn is_comparison_operator(&self, op: &String) -> (b: bool)
        ensures
            b == comparison_operator(op@),
    {
        proof {
            use_type_invariant(self);
        }
        contains_name(&self.valid_comparison_operators, op)
    }

    /// Whether `op` is an operator of a logical evaluation.
    pub fn is_logical_operator(&self, op: &String) -> (b: bool)
        ensures
            b == logical_operator(op@),
    {
        proof {
            use_type_invariant(self);
            lemma_logical_operators(op@);
        }
        contains_name(&self.valid_logical_operators, op)
    }
}

/// A sequence of one finding, or of none.
pub open spec fn finding_if(condition: bool, finding: AnalyzerErrorView) -> Seq<AnalyzerErrorView> {
    if condition {
        seq![finding]
    } else {
        Seq::empty()
    }
}

/// What a model lacks as a whole: an identifier, a name, a threshold
/// between zero and one, an evaluation, an action.
pub open spec fn model_errors(m: ModelView) -> Seq<AnalyzerErrorView> {
    finding_if(
        m.model_id.len() == 0,
        AnalyzerErrorView::MissingRequiredSchemaField { field: "model_id"@ },
    ) + finding_if(m.name.len() == 0, AnalyzerErrorView::MissingRequiredSchemaField { field: "name"@ })
        + finding_if(
        !m.threshold.in_unit_interval(),
        AnalyzerErrorView::InvalidThreshold {
            value: m.threshold,
            reason: "Threshold must be between 0 and 1"@,
        },
    ) + finding_if(
        m.evaluations.len() == 0,
        AnalyzerErrorView::MissingRequiredSchemaField { field: "evaluations"@ },
    ) + finding_if(
        m.actions.len() == 0,
        AnalyzerErrorView::MissingRequiredSchemaField { field: "actions"@ },
    )
}

/// What the schema finds in one evaluation: a kind or an operator outside
/// its vocabulary, a weight outside `1..=5`.
pub open spec fn evaluation_schema_errors(e: EvaluationView) -> Seq<AnalyzerErrorView> {
    finding_if(
        !evaluation_type_names().contains(e.evaluation_type.name()),
        AnalyzerErrorView::InvalidEvaluationType {
            evaluation_name: e.name,
            found_type: e.evaluation_type.name(),
        },
    ) + finding_if(
        e.operator is Some && e.evaluation_type == EvaluationType::Comparison
            && !comparison_operator(e.operator->0),
        AnalyzerErrorView::InvalidComparisonOperator {
            evaluation_name: e.name,
            operator: e.operator->0,
        },
    ) + finding_if(
        e.operator is Some && e.evaluation_type == EvaluationType::Logical && !logical_operator(
            e.operator->0,
        ),
        AnalyzerErrorView::InvalidLogicalOperator {
            evaluation_name: e.name,
            operator: e.operator->0,
        },
    ) + finding_if(
        e.weight is Some && !weight_in_range(e.weight->0),
        AnalyzerErrorView::InvalidWeightRange { evaluation_name: e.name, weight: e.weight->0 },
    )
}

/// What the schema finds in the first `n` evaluations.
pub open spec fn evaluations_schema_errors(evaluations: Seq<EvaluationView>, n: int) -> Seq<
    AnalyzerErrorView,
>
    decreases n,
{
    if n <= 0 {
        Seq::empty()
    } else {
        evaluations_schema_errors(evaluations, n - 1) + evaluation_schema_errors(
            evaluations[n - 1],
        )
    }
}

/// What the schema finds in one action: a type or a reason that is blank.
pub open spec fn action_errors(a: ActionView) -> Seq<AnalyzerErrorView> {
    finding_if(
        blank(a.action_type),
        AnalyzerErrorView::InvalidActionType { action_type: a.action_type },
    ) + finding_if(
        blank(a.reason),
        AnalyzerErrorView::MissingActionReason { action_type: a.action_type },
    )
}

/// What the schema finds in the first `n` actions.
pub open spec fn actions_errors(actions: Seq<ActionView>, n: int) -> Seq<AnalyzerErrorView>
    decreases n,
{
    if n <= 0 {
        Seq::empty()
    } else {
        actions_errors(actions, n - 1) + action_errors(actions[n - 1])
    }
}

/// What the schema finds in the metadata, where `created_ok` and
/// `updated_ok` say whether the two timestamps are valid.
pub open spec fn metadata_errors(
    metadata: Option<MetadataView>,
    created_ok: bool,
    updated_ok: bool,
) -> Seq<AnalyzerErrorView> {
    match metadata {
        None => Seq::empty(),
        Some(m) => finding_if(
            m.created_at is Some && !created_ok,
            AnalyzerErrorView::InvalidMetadataFormat {
                field: "created_at"@,
                reason: "Invalid datetime format"@,
            },
        ) + finding_if(
            m.last_updated is Some && !updated_ok,
            AnalyzerErrorView::InvalidMetadataFormat {
                field: "last_updated"@,
                reason: "Invalid datetime format"@,
            },
        ),
    }
}

/// The findings of the schema pass.
pub open spec fn schema_errors(m: ModelView, created_ok: bool, updated_ok: bool) -> Seq<
    AnalyzerErrorView,
> {
    model_errors(m) + evaluations_schema_errors(m.evaluations, m.evaluations.len() as int)
        + actions_errors(m.actions, m.actions.len() as int) + metadata_errors(
        m.metadata,
        created_ok,
        updated_ok,
    )
}

/// Whether a model carries a timestamp whose validity the schema pass asks
/// for.
pub open spec fn has_timestamps(m: ModelView) -> bool {
    m.metadata is Some && (m.metadata->0.created_at is Some || m.metadata->0.last_updated is Some)
}

/// Adds a finding to the list.
pub fn report(errors: &mut Vec<AnalyzerError>, finding: AnalyzerError)
    ensures
        views(final(errors)@) == views(old(errors)@) + seq![finding@],
{
    let ghost before = views(errors@);
    errors.push(finding);
    assert(views(errors@) =~= before + seq![finding@]);
}

/// Whether a text holds nothing but whitespace.
pub fn is_blank(s: &str) -> (b: bool)
    ensures
        b == blank(s@),
{
    let text = to_chars(s);
    let rest = trim(text.as_slice(), None);
    rest.len() == 0
}

/// A character that the name or the offset of a time zone at the end of a
/// timestamp may hold: a letter, a digit, or one of `+ , - . / :`.
pub open spec fn zone_char(c: char) -> bool {
    ('+' <= c <= ':') || ('a' <= c <= 'z') || ('A' <= c <= 'Z')
}

/// Whether a text writes the offset of a time zone from universal time with
/// 24 hours or more: a sign, two digits for the hours, and two digits for
/// the minutes, below 60, either at once (and then one more character may
/// follow) or behind a colon.
pub open spec fn wide_offset(t: Seq<char>) -> bool {
    &&& t.len() == 5 || t.len() == 6
    &&& t[0] == '+' || t[0] == '-'
    &&& ascii_digit(t[1]) && ascii_digit(t[2])
    &&& digit_value(t[1]) * 10 + digit_value(t[2]) >= 24
    &&& {
        ||| ascii_digit(t[3]) && t[3] <= '5' && ascii_digit(t[4]) && (t.len() == 6 ==> zone_char(
            t[5],
        ))
        ||| t.len() == 6 && t[3] == ':' && ascii_digit(t[4]) && t[4] <= '5' && ascii_digit(t[5])
    }
}

/// Whether the last `k` characters of a text are an offset of 24 hours or
/// more that stands behind whitespace or behind a digit.
pub open spec fn wide_offset_behind(s: Seq<char>, k: int) -> bool {
    &&& s.len() > k
    &&& wide_offset(s.subrange(s.len() - k, s.len() as int))
    &&& unicode_space(s[s.len() - k - 1]) || ascii_digit(s[s.len() - k - 1])
}

/// Whether a text ends in the offset of a time zone of 24 hours or more.
/// No calendar knows such a zone, and `dateparser` must not be asked about
/// such a text: where it reads the offset at the end of a timestamp it
/// hands it to `chrono::FixedOffset::east`, which does not return for an
/// offset of a day or more.
pub open spec fn ends_in_wide_offset(s: Seq<char>) -> bool {
    wide_offset_behind(s, 5) || wide_offset_behind(s, 6)
}

/// Whether `c` may stand in the name or the offset of a time zone.
pub fn is_zone_char(c: char) -> (b: bool)
    ensures
        b == zone_char(c),
{
    ('+' <= c && c <= ':') || ('a' <= c && c <= 'z') || ('A' <= c && c <= 'Z')
}

/// Whether the last `k` characters of `text` are an offset of 24 hours or
/// more behind whitespace or a digit.
pub fn has_wide_offset_behind(text: &[char], k: usize) -> (b: bool)
    requires
        k == 5 || k == 6,
    ensures
        b == wide_offset_behind(text@, k as int),
{
    let n = text.len();
    if n <= k {
        return false;
    }
    let at = n - k;
    let ghost t = text@.subrange(at as int, n as int);
    proof {
        assert(t.len() == k);
        assert(t[0] == text@[at as int]);
        assert(t[1] == text@[at + 1]);
        assert(t[2] == text@[at + 2]);
        assert(t[3] == text@[at + 3]);
        assert(t[4] == text@[at + 4]);
        if k == 6 {
            assert(t[5] == text@[at + 5]);
        }
    }
    let before = text[at - 1];
    if !(is_unicode_space(before) || is_ascii_digit(before)) {
        return false;
    }
    if !(text[at] == '+' || text[at] == '-') {
        return false;
    }
    if !(is_ascii_digit(text[at + 1]) && is_ascii_digit(text[at + 2])) {
        return false;
    }
    let hours: i64 = digit_of(text[at + 1]) * 10 + digit_of(text[at + 2]);
    if hours < 24 {
        return false;
    }
    let minutes_at_once = is_ascii_digit(text[at + 3]) && text[at + 3] <= '5' && is_ascii_digit(
        text[at + 4],
    ) && (k == 5 || is_zone_char(text[at + 5]));
    let minutes_behind_colon = k == 6 && text[at + 3] == ':' && is_ascii_digit(text[at + 4])
        && text[at + 4] <= '5' && is_ascii_digit(text[at + 5]);
    minutes_at_once || minutes_behind_colon
}

/// Whether a text ends in the offset of a time zone of 24 hours or more.
pub fn has_wide_offset(text: &str) -> (b: bool)
    ensures
        b == ends_in_wide_offset(text@),
{
    let chars = to_chars(text);
    has_wide_offset_behind(chars.as_slice(), 5) || has_wide_offset_behind(chars.as_slice(), 6)
}

/// Whether the answer `ok` may be given for a timestamp: none is valid, one
/// that ends in an offset of 24 hours or more is not, and of any other
/// `dateparser` decides.
pub open spec fn answer_allowed(timestamp: Option<Seq<char>>, ok: bool) -> bool {
    match timestamp {
        None => ok,
        Some(text) => ends_in_wide_offset(text) ==> !ok,
    }
}

/// Whether the answers `created_ok` and `updated_ok` may be given for the
/// two timestamps of the metadata of a model.
pub open spec fn answers_allowed(m: ModelView, created_ok: bool, updated_ok: bool) -> bool {
    match m.metadata {
        None => created_ok && updated_ok,
        Some(metadata) => answer_allowed(metadata.created_at, created_ok) && answer_allowed(
            metadata.last_updated,
            updated_ok,
        ),
    }
}

/// What is said of the two timestamps of a model where nothing is left to
/// `dateparser`: each is valid exactly if it is missing.
pub open spec fn decided_answers(m: ModelView) -> (bool, bool) {
    match m.metadata {
        None => (true, true),
        Some(metadata) => (metadata.created_at is None, metadata.last_updated is None),
    }
}

/// Whether nothing is left to `dateparser`: each timestamp of the metadata
/// is missing or ends in an offset of 24 hours or more.
pub open spec fn timestamps_decided(m: ModelView) -> bool {
    match m.metadata {
        None => true,
        Some(metadata) => {
            &&& metadata.created_at matches Some(text) ==> ends_in_wide_offset(text)
            &&& metadata.last_updated matches Some(text) ==> ends_in_wide_offset(text)
        },
    }
}

/// Where nothing is left to `dateparser`, only one pair of answers is
/// allowed.
pub proof fn lemma_decided_answers(m: ModelView, created_ok: bool, updated_ok: bool)
    requires
        timestamps_decided(m),
        answers_allowed(m, created_ok, updated_ok),
    ensures
        (created_ok, updated_ok) == decided_answers(m),
{
}

impl RuleAnalyzer {
    /// Asks `dateparser` whether a text is a timestamp in one of the forms
    /// it knows (`str::parse` to `dateparser::DateTimeUtc`). The answer
    /// depends on the time zone and the clock of the machine, so nothing is
    /// stated of it. A text that ends in a zone offset of 24 hours or more
    /// is kept from the call: `dateparser` hands such an offset to
    /// `chrono::FixedOffset::east`, which panics on it.
    #[verifier::external_body]
    fn is_valid_datetime(datetime_str: &str) -> (valid: bool)
        requires
            !ends_in_wide_offset(datetime_str@),
    {
        datetime_str.parse::<dateparser::DateTimeUtc>().is_ok()
    }

    /// Whether the timestamp is valid: `true` where there is none, `false`
    /// where it ends in a zone offset of 24 hours or more, else the answer
    /// of `dateparser`.
    fn timestamp_is_valid(timestamp: &Option<String>) -> (valid: bool)
        ensures
            answer_allowed(view_opt(*timestamp), valid),
    {
        match timestamp {
            Some(text) => {
                if has_wide_offset(text.as_str()) {
                    false
                } else {
                    Self::is_valid_datetime(text.as_str())
                }
            },
            None => true,
        }
    }

    /// Whether the two timestamps of the metadata are valid: `true` for one
    /// that is not there, `false` for one that ends in a zone offset of 24
    /// hours or more, else the answer of `dateparser`.
    pub fn timestamps_are_valid(model: &LrolModel) -> (valid: (bool, bool))
        ensures
            answers_allowed(model@, valid.0, valid.1),
    {
        match &model.metadata {
            Some(metadata) => (
                Self::timestamp_is_valid(&metadata.created_at),
                Self::timestamp_is_valid(&metadata.last_updated),
            ),
            None => (true, true),
        }
    }

    /// The schema pass: adds to `errors` what the model lacks and what lies
    /// outside the vocabularies. A timestamp of the metadata that ends in a
    /// zone offset of 24 hours or more is invalid; any other is held against
    /// the forms that `dateparser` knows.
    pub fn validate_schema_requirements(&self, model: &LrolModel, errors: &mut Vec<AnalyzerError>)
        ensures
            exists|created_ok: bool, updated_ok: bool|
                answers_allowed(model@, created_ok, updated_ok) && views(final(errors)@) == views(
                    old(errors)@,
                ) + #[trigger] schema_errors(model@, created_ok, updated_ok),
            !has_timestamps(model@) ==> views(final(errors)@) == views(old(errors)@)
                + schema_errors(model@, true, true),
    {
        let (created_ok, updated_ok) = Self::timestamps_are_valid(model);
        Self::check_schema(model, created_ok, updated_ok, errors);
    }

    /// The schema pass, given whether the two timestamps of the metadata are
    /// valid.
    pub fn check_schema(
        model: &LrolModel,
        created_ok: bool,
        updated_ok: bool,
        errors: &mut Vec<AnalyzerError>,
    )
        ensures
            views(final(errors)@) == views(old(errors)@) + schema_errors(
                model@,
                created_ok,
                updated_ok,
            ),
    {
        let ghost before = views(errors@);
        let schema_validator = SchemaValidator::new();
        Self::validate_model_requirements(model, errors);
        let ghost after_model = views(errors@);
        let mut i: usize = 0;
        assert(after_model + evaluations_schema_errors(model@.evaluations, 0) =~= after_model);
        while i < model.evaluations.len()
            invariant
                i <= model.evaluations@.len(),
                views(errors@) == after_model + evaluations_schema_errors(
                    model@.evaluations,
                    i as int,
                ),
            decreases model.evaluations@.len() - i,
        {
            let ghost so_far = views(errors@);
            assert(views(model.evaluations@)[i as int] == model.evaluations@[i as int]@);
            Self::validate_evaluation_schema(&schema_validator, &model.evaluations[i], errors);
            assert(views(errors@) =~= after_model + evaluations_schema_errors(
                model@.evaluations,
                i + 1,
            ));
            i += 1;
        }
        let ghost after_evaluations = views(errors@);
        let mut j: usize = 0;
        assert(after_evaluations + actions_errors(model@.actions, 0) =~= after_evaluations);
        while j < model.actions.len()
            invariant
                j <= model.actions@.len(),
                views(errors@) == after_evaluations + actions_errors(model@.actions, j as int),
            decreases model.actions@.len() - j,
        {
            assert(views(model.actions@)[j as int] == model.actions@[j as int]@);
            Self::validate_action_schema(&model.actions[j], errors);
            assert(views(errors@) =~= after_evaluations + actions_errors(model@.actions, j + 1));
            j += 1;
        }
        let ghost after_actions = views(errors@);
        match &model.metadata {
            Some(metadata) => {
                Self::validate_metadata_schema(metadata, created_ok, updated_ok, errors);
            },
            None => {
                assert(after_actions + Seq::<AnalyzerErrorView>::empty() =~= after_actions);
            },
        }
        assert(views(errors@) =~= before + schema_errors(model@, created_ok, updated_ok));
    }

    /// Adds to `errors` what the model lacks as a whole.
    pub fn validate_model_requirements(model: &LrolModel, errors: &mut Vec<AnalyzerError>)
        ensures
            views(final(errors)@) == views(old(errors)@) + model_errors(model@),
    {
        let ghost before = views(errors@);
        if model.model_id.as_str().is_empty() {
            report(
                errors,
                AnalyzerError::MissingRequiredSchemaField { field: "model_id".to_string() },
            );
        }
        if model.name.as_str().is_empty() {
            report(errors, AnalyzerError::MissingRequiredSchemaField { field: "name".to_string() });
        }
        if !model.threshold.is_in_unit_interval() {
            report(
                errors,
                AnalyzerError::InvalidThreshold {
                    value: model.threshold.duplicate(),
                    reason: "Threshold must be between 0 and 1".to_string(),
                },
            );
        }
        if model.evaluations.len() == 0 {
            report(
                errors,
                AnalyzerError::MissingRequiredSchemaField { field: "evaluations".to_string() },
            );
        }
        if model.actions.len() == 0 {
            report(
                errors,
                AnalyzerError::MissingRequiredSchemaField { field: "actions".to_string() },
            );
        }
        assert(views(errors@) =~= before + model_errors(model@));
    }

    /// Adds to `errors` what the schema finds in one evaluation.
    pub fn validate_evaluation_schema(
        schema_validator: &SchemaValidator,
        evaluation: &Evaluation,
        errors: &mut Vec<AnalyzerError>,
    )
        ensures
            views(final(errors)@) == views(old(errors)@) + evaluation_schema_errors(evaluation@),
    {
        let ghost before = views(errors@);
        let eval_type = evaluation.evaluation_type.to_string();
        if !schema_validator.is_evaluation_type(&eval_type) {
            report(
                errors,
                AnalyzerError::InvalidEvaluationType {
                    evaluation_name: evaluation.name.clone(),
                    found_type: eval_type,
                },
            );
        }
        if let Some(operator) = &evaluation.operator {
            match evaluation.evaluation_type {
                EvaluationType::Comparison => {
                    if !schema_validator.is_comparison_operator(operator) {
                        report(
                            errors,
                            AnalyzerError::InvalidComparisonOperator {
                                evaluation_name: evaluation.name.clone(),
                                operator: operator.clone(),
                            },
                        );
                    }
                },
                EvaluationType::Logical => {
                    if !schema_validator.is_logical_operator(operator) {
                        report(
                            errors,
                            AnalyzerError::InvalidLogicalOperator {
                                evaluation_name: evaluation.name.clone(),
                                operator: operator.clone(),
                            },
                        );
                    }
                },
                _ => {},
            }
        }
        if let Some(weight) = evaluation.weight {
            if weight < 1 || weight > 5 {
                report(
                    errors,
                    AnalyzerError::InvalidWeightRange {
                        evaluation_name: evaluation.name.clone(),
                        weight,
                    },
                );
            }
        }
        assert(views(errors@) =~= before + evaluation_schema_errors(evaluation@));
    }

    /// Adds to `errors` what the schema finds in one action.
    pub fn validate_action_schema(action: &Action, errors: &mut Vec<AnalyzerError>)
        ensures
            views(final(errors)@) == views(old(errors)@) + action_errors(action@),
    {
        let ghost before = views(errors@);
        if is_blank(action.action_type.as_str()) {
            report(
                errors,
                AnalyzerError::InvalidActionType { action_type: action.action_type.clone() },
            );
        }
        if is_blank(action.reason.as_str()) {
            report(
                errors,
                AnalyzerError::MissingActionReason { action_type: action.action_type.clone() },
            );
        }
        assert(views(errors@) =~= before + action_errors(action@));
    }

    /// Adds to `errors` what the schema finds in the metadata, given whether
    /// its two timestamps are valid.
    pub fn validate_metadata_schema(
        metadata: &Metadata,
        created_ok: bool,
        updated_ok: bool,
        errors: &mut Vec<AnalyzerError>,
    )
        ensures
            views(final(errors)@) == views(old(errors)@) + metadata_errors(
                Some(metadata@),
                created_ok,
                updated_ok,
            ),
    {
        let ghost before = views(errors@);
        if metadata.created_at.is_some() && !created_ok {
            report(
                errors,
                AnalyzerError::InvalidMetadataFormat {
                    field: "created_at".to_string(),
                    reason: "Invalid datetime format".to_string(),
                },
            );
        }
        if metadata.last_updated.is_some() && !updated_ok {
            report(
                errors,
                AnalyzerError::InvalidMetadataFormat {
                    field: "last_updated".to_string(),
                    reason: "Invalid datetime format".to_string(),
                },
            );
        }
        assert(views(errors@) =~= before + metadata_errors(Some(metadata@), created_ok, updated_ok));
    }
}

} // verus!
