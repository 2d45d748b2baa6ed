//! The document parser: from the text of a rule document to a model, or to
//! the first syntax error with its line and column.
//!
//! A document is an object. Its members may come in any order; a key that is
//! not known is skipped; a known key with a value of the wrong form ends the
//! parse. A member that cannot be read ends the list of members, and the
//! closing brace is expected in its place.

use crate::decimal::{clamp_i32, Decimal, DecimalView};
use crate::error::{
    clamp_usize, column_of, line_of, to_parser_error, ParserError, ParserErrorView, SyntaxFailure,
    SyntaxIssue,
};
use crate::grammar::{
    char_at, field_at, lemma_field_at, lemma_skip_spaces, object_at, skip_spaces, Located,
};
use crate::text::{lowered, same_text, to_chars, view_opt, views};
use crate::types::{
    aggregation_named, evaluation_type_named, field_views, lemma_array_view, lemma_object_view,
    Action, ActionView, Aggregation, Evaluation, EvaluationType, EvaluationView, Metadata,
    MetadataView, Value, ValueView,
};
use vstd::prelude::*;

verus! {

/// A rule model: named evaluations, the actions they lead to, and the
/// threshold at which they do.
#[derive(Debug, Clone, PartialEq)]
pub struct LrolModel {
    pub model_id: String,
    pub name: String,
    pub description: Option<String>,
    pub threshold: Decimal,
    pub evaluations: Vec<Evaluation>,
    pub actions: Vec<Action>,
    pub metadata: Option<Metadata>,
}

/// What a model stands for.
pub struct ModelView {
    pub model_id: Seq<char>,
    pub name: Seq<char>,
    pub description: Option<Seq<char>>,
    pub threshold: DecimalView,
    pub evaluations: Seq<EvaluationView>,
    pub actions: Seq<ActionView>,
    pub metadata: Option<MetadataView>,
}

impl View for LrolModel {
    type V = ModelView;

    open spec fn view(&self) -> ModelView {
        ModelView {
            model_id: self.model_id@,
            name: self.name@,
            description: view_opt(self.description),
            threshold: self.threshold@,
            evaluations: views(self.evaluations@),
            actions: views(self.actions@),
            metadata: view_opt(self.metadata),
        }
    }
}

impl Default for LrolModel {
    fn default() -> (model: LrolModel)
        ensures
            model@ == (ModelView {
                model_id: Seq::empty(),
                name: Seq::empty(),
                description: None,
                threshold: Decimal::zero_view(),
                evaluations: Seq::empty(),
                actions: Seq::empty(),
                metadata: None,
            }),
    {
        let model = LrolModel {
            model_id: String::new(),
            name: String::new(),
            description: None,
            threshold: Decimal::zero(),
            evaluations: Vec::new(),
            actions: Vec::new(),
            metadata: None,
        };
        assert(views(model.evaluations@) =~= Seq::<EvaluationView>::empty());
        assert(views(model.actions@) =~= Seq::<ActionView>::empty());
        model
    }
}

/// The parser of rule documents.
pub struct LrolParser;

/// What the members of a document have set so far.
pub struct DraftView {
    pub model_id: Option<Seq<char>>,
    pub name: Option<Seq<char>>,
    pub description: Option<Seq<char>>,
    pub threshold: Option<DecimalView>,
    pub evaluations: Option<Seq<ValueView>>,
    pub actions: Option<Seq<ValueView>>,
    pub metadata: Option<Seq<(Seq<char>, ValueView)>>,
}

/// The draft of a document before its first member.
pub open spec fn empty_draft() -> DraftView {
    DraftView {
        model_id: None,
        name: None,
        description: None,
        threshold: None,
        evaluations: None,
        actions: None,
        metadata: None,
    }
}

/// The draft after the member `key: value`: a known key sets its field, or
/// fails where the value has the wrong form; any other key changes nothing.
pub open spec fn assign(draft: DraftView, key: Seq<char>, value: ValueView) -> Result<
    DraftView,
    SyntaxIssue,
> {
    if key == "model_id"@ {
        match value {
            ValueView::String(v) => Ok(DraftView { model_id: Some(v), ..draft }),
            _ => Err(SyntaxIssue::InvalidModelId),
        }
    } else if key == "name"@ {
        match value {
            ValueView::String(v) => Ok(DraftView { name: Some(v), ..draft }),
            _ => Err(SyntaxIssue::InvalidName),
        }
    } else if key == "description"@ {
        match value {
            ValueView::String(v) => Ok(DraftView { description: Some(v), ..draft }),
            _ => Err(SyntaxIssue::InvalidDescription),
        }
    } else if key == "threshold"@ {
        match value {
            ValueView::Number(v) => Ok(DraftView { threshold: Some(v), ..draft }),
            _ => Err(SyntaxIssue::InvalidThreshold),
        }
    } else if key == "evaluations"@ {
        match value {
            ValueView::Array(v) => Ok(DraftView { evaluations: Some(v), ..draft }),
            _ => Err(SyntaxIssue::InvalidEvaluations),
        }
    } else if key == "actions"@ {
        match value {
            ValueView::Array(v) => Ok(DraftView { actions: Some(v), ..draft }),
            _ => Err(SyntaxIssue::InvalidActions),
        }
    } else if key == "metadata"@ {
        match value {
            ValueView::Object(v) => Ok(DraftView { metadata: Some(v), ..draft }),
            _ => Err(SyntaxIssue::InvalidMetadata),
        }
    } else {
        Ok(draft)
    }
}

/// The members of a document from `pos` on, applied to `draft`: the draft
/// after the last member that could be read, and the offset at which the
/// closing brace is expected. A comma behind a member asks for another one,
/// but none has to follow it.
pub open spec fn contents_at(s: Seq<char>, pos: int, draft: DraftView) -> Result<
    (DraftView, int),
    Located,
>
    decreases s.len() - pos,
{
    let p = skip_spaces(s, pos);
    match field_at(s, p) {
        Err(_) => Ok((draft, p)),
        Ok(((key, value), e)) => match assign(draft, key, value) {
            Err(issue) => Err(Located { at: e, issue }),
            Ok(next_draft) => {
                let comma = skip_spaces(s, e);
                proof {
                    lemma_skip_spaces(s, pos);
                    lemma_skip_spaces(s, e);
                    lemma_field_at(s, p);
                }
                if 0 <= pos && comma < s.len() && s[comma] == ',' {
                    contents_at(s, comma + 1, next_draft)
                } else {
                    Ok((next_draft, e))
                }
            },
        },
    }
}

/// What the members of an evaluation have set so far.
pub struct EvaluationDraft {
    pub name: Option<Seq<char>>,
    pub evaluation_type: Option<EvaluationType>,
    pub left: Option<Seq<char>>,
    pub operator: Option<Seq<char>>,
    pub right: Option<ValueView>,
    pub operands: Option<Seq<Seq<char>>>,
    pub weight: Option<i32>,
    pub aggregation: Option<Aggregation>,
}

/// The draft of an evaluation before its first member.
pub open spec fn empty_evaluation() -> EvaluationDraft {
    EvaluationDraft {
        name: None,
        evaluation_type: None,
        left: None,
        operator: None,
        right: None,
        operands: None,
        weight: None,
        aggregation: None,
    }
}

/// One of the two operators of a logical evaluation.
pub open spec fn logical_operator(op: Seq<char>) -> bool {
    op == "AND"@ || op == "OR"@
}

/// Every value of the list is a string.
pub open spec fn all_strings(values: Seq<ValueView>) -> bool {
    forall|i: int| 0 <= i < values.len() ==> #[trigger] values[i] is String
}

/// The strings that a list of string values holds.
pub open spec fn strings_of(values: Seq<ValueView>) -> Seq<Seq<char>> {
    Seq::new(values.len(), |i: int| values[i]->String_0)
}

/// The draft of an evaluation after the member `key: value`. A member sets
/// its field where its value has the form that the field takes. These end
/// the parse: a type that is not known, an operator other than `AND` and `OR`
/// where the type read so far is logical, operands that are not all strings,
/// a weight that is no number, an aggregation that is not known.
pub open spec fn set_member(draft: EvaluationDraft, key: Seq<char>, value: ValueView) -> Result<
    EvaluationDraft,
    SyntaxIssue,
> {
    if key == "name"@ && value is String {
        Ok(EvaluationDraft { name: Some(value->String_0), ..draft })
    } else if key == "type"@ && value is String {
        match evaluation_type_named(lowered(value->String_0)) {
            Some(t) => Ok(EvaluationDraft { evaluation_type: Some(t), ..draft }),
            None => Err(SyntaxIssue::InvalidEvaluationType),
        }
    } else if key == "operator"@ && value is String {
        if draft.evaluation_type == Some(EvaluationType::Logical) && !logical_operator(
            value->String_0,
        ) {
            Err(SyntaxIssue::InvalidLogicalOperator)
        } else {
            Ok(EvaluationDraft { operator: Some(value->String_0), ..draft })
        }
    } else if key == "operands"@ && value is Array {
        if all_strings(value->Array_0) {
            Ok(EvaluationDraft { operands: Some(strings_of(value->Array_0)), ..draft })
        } else {
            Err(SyntaxIssue::InvalidOperands)
        }
    } else if key == "left"@ && value is String {
        Ok(EvaluationDraft { left: Some(value->String_0), ..draft })
    } else if key == "right"@ {
        Ok(EvaluationDraft { right: Some(value), ..draft })
    } else if key == "weight"@ {
        match value {
            ValueView::Number(d) => Ok(
                EvaluationDraft { weight: Some(clamp_i32(d.truncated()) as i32), ..draft },
            ),
            _ => Err(SyntaxIssue::InvalidWeight),
        }
    } else if key == "aggregation"@ && value is String {
        match aggregation_named(value->String_0) {
            Some(a) => Ok(EvaluationDraft { aggregation: Some(a), ..draft }),
            None => Err(SyntaxIssue::InvalidAggregation),
        }
    } else {
        Ok(draft)
    }
}

/// The draft after the members `fields[from..]`, one after the other.
pub open spec fn set_members(
    fields: Seq<(Seq<char>, ValueView)>,
    from: int,
    draft: EvaluationDraft,
) -> Result<EvaluationDraft, SyntaxIssue>
    decreases fields.len() - from,
{
    if 0 <= from < fields.len() {
        match set_member(draft, fields[from].0, fields[from].1) {
            Err(issue) => Err(issue),
            Ok(next) => set_members(fields, from + 1, next),
        }
    } else {
        Ok(draft)
    }
}

/// The evaluation that a finished draft makes. A logical evaluation has
/// operands and one of the operators `AND` and `OR`; a comparison has a left
/// side, an operator and a right side; every evaluation has a type and a
/// name.
pub open spec fn complete(draft: EvaluationDraft) -> Result<EvaluationView, SyntaxIssue> {
    if draft.evaluation_type is None {
        Err(SyntaxIssue::MissingType)
    } else if draft.evaluation_type == Some(EvaluationType::Logical) && draft.operands is None {
        Err(SyntaxIssue::MissingOperands)
    } else if draft.evaluation_type == Some(EvaluationType::Logical) && draft.operator is None {
        Err(SyntaxIssue::MissingOperator)
    } else if draft.evaluation_type == Some(EvaluationType::Logical) && !logical_operator(
        draft.operator->0,
    ) {
        Err(SyntaxIssue::InvalidLogicalOperator)
    } else if draft.evaluation_type == Some(EvaluationType::Comparison) && draft.left is None {
        Err(SyntaxIssue::MissingLeft)
    } else if draft.evaluation_type == Some(EvaluationType::Comparison) && draft.operator is None {
        Err(SyntaxIssue::MissingOperator)
    } else if draft.evaluation_type == Some(EvaluationType::Comparison) && draft.right is None {
        Err(SyntaxIssue::MissingRight)
    } else if draft.name is None {
        Err(SyntaxIssue::MissingName)
    } else {
        Ok(
            EvaluationView {
                name: draft.name->0,
                evaluation_type: draft.evaluation_type->0,
                left: draft.left,
                operator: draft.operator,
                right: draft.right,
                operands: draft.operands,
                weight: draft.weight,
                aggregation: draft.aggregation,
            },
        )
    }
}

/// The evaluation that the members of an object describe.
pub open spec fn evaluation_of(fields: Seq<(Seq<char>, ValueView)>) -> Result<
    EvaluationView,
    SyntaxIssue,
> {
    match set_members(fields, 0, empty_evaluation()) {
        Err(issue) => Err(issue),
        Ok(draft) => complete(draft),
    }
}

/// The evaluations `acc` and those that `values[from..]` describe. A value
/// that is no object is passed over; an object that describes no evaluation
/// ends the parse.
pub open spec fn evaluations_of(values: Seq<ValueView>, from: int, acc: Seq<EvaluationView>) -> Result<
    Seq<EvaluationView>,
    SyntaxIssue,
>
    decreases values.len() - from,
{
    if 0 <= from < values.len() {
        match values[from] {
            ValueView::Object(fields) => match evaluation_of(fields) {
                Err(issue) => Err(issue),
                Ok(evaluation) => evaluations_of(values, from + 1, acc.push(evaluation)),
            },
            _ => evaluations_of(values, from + 1, acc),
        }
    } else {
        Ok(acc)
    }
}

/// What the members of an action have set so far.
pub struct ActionDraft {
    pub action_type: Option<Seq<char>>,
    pub reason: Option<Seq<char>>,
}

/// The draft of an action after the members `fields[from..]`.
pub open spec fn action_members(
    fields: Seq<(Seq<char>, ValueView)>,
    from: int,
    draft: ActionDraft,
) -> ActionDraft
    decreases fields.len() - from,
{
    if 0 <= from < fields.len() {
        let key = fields[from].0;
        let value = fields[from].1;
        let next = if key == "type"@ && value is String {
            ActionDraft { action_type: Some(value->String_0), ..draft }
        } else if key == "reason"@ && value is String {
            ActionDraft { reason: Some(value->String_0), ..draft }
        } else {
            draft
        };
        action_members(fields, from + 1, next)
    } else {
        draft
    }
}

/// The action that the members of an object describe, where they give a
/// type and a reason.
pub open spec fn action_of(fields: Seq<(Seq<char>, ValueView)>) -> Option<ActionView> {
    let draft = action_members(fields, 0, ActionDraft { action_type: None, reason: None });
    if draft.action_type is Some && draft.reason is Some {
        Some(ActionView { action_type: draft.action_type->0, reason: draft.reason->0 })
    } else {
        None
    }
}

/// The actions `acc` and those that `values[from..]` describe; a value that
/// describes none is passed over.
pub open spec fn actions_of(values: Seq<ValueView>, from: int, acc: Seq<ActionView>) -> Seq<
    ActionView,
>
    decreases values.len() - from,
{
    if 0 <= from < values.len() {
        match values[from] {
            ValueView::Object(fields) => match action_of(fields) {
                Some(action) => actions_of(values, from + 1, acc.push(action)),
                None => actions_of(values, from + 1, acc),
            },
            _ => actions_of(values, from + 1, acc),
        }
    } else {
        acc
    }
}

/// The metadata after the members `fields[from..]`: each of the four keys
/// takes a string; anything else is passed over.
pub open spec fn metadata_members(
    fields: Seq<(Seq<char>, ValueView)>,
    from: int,
    draft: MetadataView,
) -> MetadataView
    decreases fields.len() - from,
{
    if 0 <= from < fields.len() {
        let key = fields[from].0;
        let value = fields[from].1;
        let next = if !(value is String) {
            draft
        } else if key == "created_by"@ {
            MetadataView { created_by: Some(value->String_0), ..draft }
        } else if key == "created_at"@ {
            MetadataView { created_at: Some(value->String_0), ..draft }
        } else if key == "last_updated"@ {
            MetadataView { last_updated: Some(value->String_0), ..draft }
        } else if key == "notes"@ {
            MetadataView { notes: Some(value->String_0), ..draft }
        } else {
            draft
        };
        metadata_members(fields, from + 1, next)
    } else {
        draft
    }
}

/// The metadata that the members of an object describe.
pub open spec fn metadata_of(fields: Seq<(Seq<char>, ValueView)>) -> MetadataView {
    metadata_members(
        fields,
        0,
        MetadataView { created_by: None, created_at: None, last_updated: None, notes: None },
    )
}

/// The model that a draft makes: what no member has set is empty, and the
/// threshold zero.
pub open spec fn model_of(draft: DraftView) -> Result<ModelView, SyntaxIssue> {
    let values = match draft.evaluations {
        Some(v) => v,
        None => Seq::empty(),
    };
    match evaluations_of(values, 0, Seq::empty()) {
        Err(issue) => Err(issue),
        Ok(evaluations) => Ok(
            ModelView {
                model_id: match draft.model_id {
                    Some(v) => v,
                    None => Seq::empty(),
                },
                name: match draft.name {
                    Some(v) => v,
                    None => Seq::empty(),
                },
                description: draft.description,
                threshold: match draft.threshold {
                    Some(v) => v,
                    None => Decimal::zero_view(),
                },
                evaluations,
                actions: match draft.actions {
                    Some(v) => actions_of(v, 0, Seq::empty()),
                    None => Seq::empty(),
                },
                metadata: match draft.metadata {
                    Some(fields) => Some(metadata_of(fields)),
                    None => None,
                },
            },
        ),
    }
}

/// The members of a document from `pos` on and the model they make, with
/// the offset at which the closing brace is expected. An evaluation that
/// cannot be made is reported at that offset.
pub open spec fn model_at(s: Seq<char>, pos: int) -> Result<(ModelView, int), Located> {
    match contents_at(s, pos, empty_draft()) {
        Err(failure) => Err(failure),
        Ok((draft, e)) => match model_of(draft) {
            Err(issue) => Err(Located { at: e, issue }),
            Ok(model) => Ok((model, e)),
        },
    }
}

/// The model that a document describes, and the offset at which reading
/// ends: whitespace, an opening brace, the members, a closing brace and
/// whitespace. What follows is not read.
pub open spec fn document_at(s: Seq<char>) -> Result<(ModelView, int), Located> {
    match char_at(s, skip_spaces(s, 0), '{') {
        Err(failure) => Err(failure),
        Ok(start) => match model_at(s, start) {
            Err(failure) => Err(failure),
            Ok((model, e)) => match char_at(s, e, '}') {
                Err(failure) => Err(failure),
                Ok(end) => Ok((model, skip_spaces(s, end))),
            },
        },
    }
}

/// What parsing a document gives: its model, or the report of the first
/// failure.
pub open spec fn parsed(s: Seq<char>) -> Result<ModelView, ParserErrorView> {
    match document_at(s) {
        Ok((model, _)) => Ok(model),
        Err(failure) => Err(syntax_report(s, failure)),
    }
}

/// The evaluation that stands at `pos` as an object, and the offset behind
/// it. An evaluation that cannot be made is reported behind the object.
pub open spec fn evaluation_at(s: Seq<char>, pos: int) -> Result<(EvaluationView, int), Located> {
    match object_at(s, pos) {
        Err(_) => Err(Located { at: pos, issue: SyntaxIssue::EvaluationObject }),
        Ok((fields, e)) => match evaluation_of(fields) {
            Err(issue) => Err(Located { at: e, issue }),
            Ok(evaluation) => Ok((evaluation, e)),
        },
    }
}

/// Whether an evaluation has what its kind asks for: a logical one has
/// operands and one of the operators `AND` and `OR`, a comparison has a left
/// side, an operator and a right side.
pub open spec fn well_formed(e: EvaluationView) -> bool {
    match e.evaluation_type {
        EvaluationType::Logical => e.operands is Some && e.operator is Some && logical_operator(
            e.operator->0,
        ),
        EvaluationType::Comparison => e.left is Some && e.operator is Some && e.right is Some,
        _ => true,
    }
}

/// Every evaluation of the list is well formed.
pub open spec fn all_well_formed(evaluations: Seq<EvaluationView>) -> bool {
    forall|i: int| 0 <= i < evaluations.len() ==> well_formed(#[trigger] evaluations[i])
}

/// The evaluations that a list of values describes are well formed.
pub proof fn lemma_evaluations_are_well_formed(
    values: Seq<ValueView>,
    from: int,
    acc: Seq<EvaluationView>,
)
    requires
        all_well_formed(acc),
    ensures
        evaluations_of(values, from, acc) matches Ok(evaluations) ==> all_well_formed(
            evaluations,
        ),
    decreases values.len() - from,
{
    if 0 <= from < values.len() {
        match values[from] {
            ValueView::Object(fields) => match evaluation_of(fields) {
                Err(_) => {},
                Ok(evaluation) => {
                    assert forall|i: int| 0 <= i < acc.push(evaluation).len() implies well_formed(
                        #[trigger] acc.push(evaluation)[i],
                    ) by {
                        if i < acc.len() {
                            assert(acc.push(evaluation)[i] == acc[i]);
                        }
                    }
                    lemma_evaluations_are_well_formed(values, from + 1, acc.push(evaluation));
                },
            },
            _ => {
                lemma_evaluations_are_well_formed(values, from + 1, acc);
            },
        }
    }
}

/// Every evaluation of a model that the parser returns has what its kind
/// asks for.
pub proof fn lemma_parsed_evaluations_are_well_formed(s: Seq<char>)
    ensures
        parsed(s) matches Ok(model) ==> all_well_formed(model.evaluations),
{
    if let Ok(start) = char_at(s, skip_spaces(s, 0), '{') {
        if let Ok((draft, _)) = contents_at(s, start, empty_draft()) {
            let values = match draft.evaluations {
                Some(v) => v,
                None => Seq::empty(),
            };
            lemma_evaluations_are_well_formed(values, 0, Seq::empty());
        }
    }
}

/// The error that reports a failure of the grammar in `s`.
pub open spec fn syntax_report(s: Seq<char>, failure: Located) -> ParserErrorView {
    ParserErrorView::InvalidSyntax {
        line: clamp_usize(line_of(s, failure.at)),
        column: clamp_usize(column_of(s, failure.at)),
        message: failure.issue.message(),
    }
}

/// The members of a document that have been read.
struct ModelFields {
    model_id: Option<String>,
    name: Option<String>,
    description: Option<String>,
    threshold: Option<Decimal>,
    evaluations: Option<Vec<Value>>,
    actions: Option<Vec<Value>>,
    metadata: Option<Vec<(String, Value)>>,
}

impl View for ModelFields {
    type V = DraftView;

    closed spec fn view(&self) -> DraftView {
        DraftView {
            model_id: view_opt(self.model_id),
            name: view_opt(self.name),
            description: view_opt(self.description),
            threshold: view_opt(self.threshold),
            evaluations: match self.evaluations {
                Some(v) => Some(views(v@)),
                None => None,
            },
            actions: match self.actions {
                Some(v) => Some(views(v@)),
                None => None,
            },
            metadata: match self.metadata {
                Some(v) => Some(field_views(v@)),
                None => None,
            },
        }
    }
}

/// The members of an evaluation that have been read.
struct EvaluationFields {
    name: Option<String>,
    evaluation_type: Option<EvaluationType>,
    left: Option<String>,
    operator: Option<String>,
    right: Option<Value>,
    operands: Option<Vec<String>>,
    weight: Option<i32>,
    aggregation: Option<Aggregation>,
}

impl View for EvaluationFields {
    type V = EvaluationDraft;

    closed spec fn view(&self) -> EvaluationDraft {
        EvaluationDraft {
            name: view_opt(self.name),
            evaluation_type: self.evaluation_type,
            left: view_opt(self.left),
            operator: view_opt(self.operator),
            right: view_opt(self.right),
            operands: match self.operands {
                Some(v) => Some(views(v@)),
                None => None,
            },
            weight: self.weight,
            aggregation: self.aggregation,
        }
    }
}

/// Whether `op` is `AND` or `OR`.
pub fn is_logical_operator(op: &str) -> (b: bool)
    ensures
        b == logical_operator(op@),
{
    same_text(op, "AND") || same_text(op, "OR")
}

/// Stores the member `key: value` of a document.
fn assign_field(draft: ModelFields, key: &str, value: Value) -> (r: Result<
    ModelFields,
    SyntaxIssue,
>)
    ensures
        match r {
            Ok(next) => assign(draft@, key@, value@) == Ok::<DraftView, SyntaxIssue>(next@),
            Err(issue) => assign(draft@, key@, value@) == Err::<DraftView, SyntaxIssue>(issue),
        },
{
    let mut draft = draft;
    if same_text(key, "model_id") {
        match value {
            Value::String(v) => {
                draft.model_id = Some(v);
                Ok(draft)
            },
            _ => Err(SyntaxIssue::InvalidModelId),
        }
    } else if same_text(key, "name") {
        match value {
            Value::String(v) => {
                draft.name = Some(v);
                Ok(draft)
            },
            _ => Err(SyntaxIssue::InvalidName),
        }
    } else if same_text(key, "description") {
        match value {
            Value::String(v) => {
                draft.description = Some(v);
                Ok(draft)
            },
            _ => Err(SyntaxIssue::InvalidDescription),
        }
    } else if same_text(key, "threshold") {
        match value {
            Value::Number(v) => {
                draft.threshold = Some(v);
                Ok(draft)
            },
            _ => Err(SyntaxIssue::InvalidThreshold),
        }
    } else if same_text(key, "evaluations") {
        match value {
            Value::Array(v) => {
                proof {
                    lemma_array_view(v);
                }
                draft.evaluations = Some(v);
                Ok(draft)
            },
            _ => Err(SyntaxIssue::InvalidEvaluations),
        }
    } else if same_text(key, "actions") {
        match value {
            Value::Array(v) => {
                proof {
                    lemma_array_view(v);
                }
                draft.actions = Some(v);
                Ok(draft)
            },
            _ => Err(SyntaxIssue::InvalidActions),
        }
    } else if same_text(key, "metadata") {
        match value {
            Value::Object(v) => {
                proof {
                    lemma_object_view(v);
                }
                draft.metadata = Some(v);
                Ok(draft)
            },
            _ => Err(SyntaxIssue::InvalidMetadata),
        }
    } else {
        Ok(draft)
    }
}

/// The strings of a list of values, where all of them are strings.
fn strings_in(values: &Vec<Value>) -> (r: Option<Vec<String>>)
    ensures
        match r {
            Some(strings) => all_strings(views(values@)) && views(strings@) == strings_of(
                views(values@),
            ),
            None => !all_strings(views(values@)),
        },
{
    let mut out: Vec<String> = Vec::new();
    let mut i: usize = 0;
    while i < values.len()
        invariant
            i <= values@.len(),
            out@.len() == i,
            forall|j: int| 0 <= j < i ==> #[trigger] views(values@)[j] is String,
            forall|j: int| 0 <= j < i ==> out@[j]@ == views(values@)[j]->String_0,
        decreases values@.len() - i,
    {
        match &values[i] {
            Value::String(s) => {
                out.push(s.clone());
            },
            _ => {
                assert(!(views(values@)[i as int] is String));
                return None;
            },
        }
        i += 1;
    }
    assert(views(out@) =~= strings_of(views(values@)));
    Some(out)
}

/// Stores the member `key: value` of an evaluation.
fn set_field(draft: EvaluationFields, key: &str, value: &Value) -> (r: Result<
    EvaluationFields,
    SyntaxIssue,
>)
    ensures
        match r {
            Ok(next) => set_member(draft@, key@, value@) == Ok::<EvaluationDraft, SyntaxIssue>(
                next@,
            ),
            Err(issue) => set_member(draft@, key@, value@) == Err::<EvaluationDraft, SyntaxIssue>(
                issue,
            ),
        },
{
    let mut draft = draft;
    if same_text(key, "name") {
        if let Value::String(v) = value {
            draft.name = Some(v.clone());
            return Ok(draft);
        }
    }
    if same_text(key, "type") {
        if let Value::String(v) = value {
            return match EvaluationType::from_str(v.as_str()) {
                Ok(t) => {
                    draft.evaluation_type = Some(t);
                    Ok(draft)
                },
                Err(_) => Err(SyntaxIssue::InvalidEvaluationType),
            };
        }
    }
    if same_text(key, "operator") {
        if let Value::String(v) = value {
            let logical = match draft.evaluation_type {
                Some(EvaluationType::Logical) => true,
                _ => false,
            };
            if logical && !is_logical_operator(v.as_str()) {
                return Err(SyntaxIssue::InvalidLogicalOperator);
            }
            draft.operator = Some(v.clone());
            return Ok(draft);
        }
    }
    if same_text(key, "operands") {
        if let Value::Array(items) = value {
            proof {
                lemma_array_view(*items);
            }
            return match strings_in(items) {
                Some(strings) => {
                    draft.operands = Some(strings);
                    Ok(draft)
                },
                None => Err(SyntaxIssue::InvalidOperands),
            };
        }
    }
    if same_text(key, "left") {
        if let Value::String(v) = value {
            draft.left = Some(v.clone());
            return Ok(draft);
        }
    }
    if same_text(key, "right") {
        draft.right = Some(value.duplicate());
        return Ok(draft);
    }
    if same_text(key, "weight") {
        return match value {
            Value::Number(d) => {
                draft.weight = Some(d.to_i32());
                Ok(draft)
            },
            _ => Err(SyntaxIssue::InvalidWeight),
        };
    }
    if same_text(key, "aggregation") {
        if let Value::String(v) = value {
            return match Aggregation::from_str(v.as_str()) {
                Ok(a) => {
                    draft.aggregation = Some(a);
                    Ok(draft)
                },
                Err(_) => Err(SyntaxIssue::InvalidAggregation),
            };
        }
    }
    Ok(draft)
}

/// Makes the evaluation of a finished draft.
fn complete_evaluation(draft: EvaluationFields) -> (r: Result<Evaluation, SyntaxIssue>)
    ensures
        match r {
            Ok(evaluation) => complete(draft@) == Ok::<EvaluationView, SyntaxIssue>(evaluation@),
            Err(issue) => complete(draft@) == Err::<EvaluationView, SyntaxIssue>(issue),
        },
{
    let evaluation_type = match draft.evaluation_type {
        Some(t) => t,
        None => {
            return Err(SyntaxIssue::MissingType);
        },
    };
    match evaluation_type {
        EvaluationType::Logical => {
            if draft.operands.is_none() {
                return Err(SyntaxIssue::MissingOperands);
            }
            match &draft.operator {
                None => {
                    return Err(SyntaxIssue::MissingOperator);
                },
                Some(op) => {
                    if !is_logical_operator(op.as_str()) {
                        return Err(SyntaxIssue::InvalidLogicalOperator);
                    }
                },
            }
        },
        EvaluationType::Comparison => {
            if draft.left.is_none() {
                return Err(SyntaxIssue::MissingLeft);
            }
            if draft.operator.is_none() {
                return Err(SyntaxIssue::MissingOperator);
            }
            if draft.right.is_none() {
                return Err(SyntaxIssue::MissingRight);
            }
        },
        _ => {},
    }
    let name = match draft.name {
        Some(n) => n,
        None => {
            return Err(SyntaxIssue::MissingName);
        },
    };
    Ok(
        Evaluation {
            name,
            evaluation_type,
            left: draft.left,
            operator: draft.operator,
            right: draft.right,
            operands: draft.operands,
            weight: draft.weight,
            aggregation: draft.aggregation,
        },
    )
}

impl LrolParser {
    /// Parses the text of a document. The evaluations of the model that it
    /// returns have what their kinds ask for.
    pub fn parse(input: &str) -> (r: Result<LrolModel, ParserError>)
        ensures
            match r {
                Ok(model) => parsed(input@) == Ok::<ModelView, ParserErrorView>(model@)
                    && all_well_formed(model@.evaluations),
                Err(error) => parsed(input@) == Err::<ModelView, ParserErrorView>(error@),
            },
    {
        proof {
            lemma_parsed_evaluations_are_well_formed(input@);
        }
        let text = to_chars(input);
        match Self::parse_model(text.as_slice()) {
            Ok((_, model)) => Ok(model),
            Err(failure) => Err(to_parser_error(text.as_slice(), failure)),
        }
    }

    /// Reads a document: whitespace, an opening brace, the members, a
    /// closing brace and whitespace.
    pub fn parse_model(text: &[char]) -> (r: Result<(usize, LrolModel), SyntaxFailure>)
        ensures
            match r {
                Ok((next, model)) => document_at(text@) == Ok::<(ModelView, int), Located>(
                    (model@, next as int),
                ) && next <= text@.len(),
                Err(failure) => document_at(text@) == Err::<(ModelView, int), Located>(
                    failure.located(),
                ) && failure.offset <= text@.len(),
            },
    {
        let open = Self::skip_whitespace(text, 0);
        let start = match Self::expect_char(text, open, '{') {
            Ok(next) => next,
            Err(failure) => {
                return Err(failure);
            },
        };
        let (e, model) = match Self::parse_model_contents(text, start) {
            Ok(read) => read,
            Err(failure) => {
                return Err(failure);
            },
        };
        match Self::expect_char(text, e, '}') {
            Ok(end) => Ok((Self::skip_whitespace(text, end), model)),
            Err(failure) => Err(failure),
        }
    }

    /// Reads the members of a document from `pos` on and makes the model.
    pub fn parse_model_contents(text: &[char], pos: usize) -> (r: Result<
        (usize, LrolModel),
        SyntaxFailure,
    >)
        requires
            pos <= text@.len(),
        ensures
            match r {
                Ok((next, model)) => model_at(text@, pos as int) == Ok::<(ModelView, int), Located>(
                    (model@, next as int),
                ) && pos <= next <= text@.len(),
                Err(failure) => model_at(text@, pos as int) == Err::<(ModelView, int), Located>(
                    failure.located(),
                ) && failure.offset <= text@.len(),
            },
    {
        let mut draft = ModelFields {
            model_id: None,
            name: None,
            description: None,
            threshold: None,
            evaluations: None,
            actions: None,
            metadata: None,
        };
        let mut cur: usize = pos;
        let mut end: usize = pos;
        loop
            invariant_except_break
                pos <= cur <= text@.len(),
                contents_at(text@, pos as int, empty_draft()) == contents_at(
                    text@,
                    cur as int,
                    draft@,
                ),
            ensures
                pos <= end <= text@.len(),
                contents_at(text@, pos as int, empty_draft()) == Ok::<(DraftView, int), Located>(
                    (draft@, end as int),
                ),
            decreases text@.len() - cur,
        {
            let p = Self::skip_whitespace(text, cur);
            match Self::parse_field(text, p) {
                Err(_) => {
                    end = p;
                    break ;
                },
                Ok((e, (key, value))) => {
                    match assign_field(draft, key.as_str(), value) {
                        Err(issue) => {
                            return Err(SyntaxFailure { offset: e, issue });
                        },
                        Ok(next) => {
                            draft = next;
                        },
                    }
                    let comma = Self::skip_whitespace(text, e);
                    if comma < text.len() && text[comma] == ',' {
                        cur = comma + 1;
                    } else {
                        end = e;
                        break ;
                    }
                },
            }
        }
        let evaluations = match draft.evaluations {
            Some(values) => Self::parse_evaluations_array(end, values),
            None => {
                let values: Vec<Value> = Vec::new();
                Self::parse_evaluations_array(end, values)
            },
        };
        let evaluations = match evaluations {
            Ok(evaluations) => evaluations,
            Err(failure) => {
                return Err(failure);
            },
        };
        let actions = match draft.actions {
            Some(values) => Self::parse_actions_array(values),
            None => {
                let none: Vec<Action> = Vec::new();
                assert(views(none@) =~= Seq::<ActionView>::empty());
                none
            },
        };
        let metadata = match draft.metadata {
            Some(fields) => Some(Self::parse_metadata_from_fields(fields.as_slice())),
            None => None,
        };
        let model = LrolModel {
            model_id: match draft.model_id {
                Some(v) => v,
                None => String::new(),
            },
            name: match draft.name {
                Some(v) => v,
                None => String::new(),
            },
            description: draft.description,
            threshold: match draft.threshold {
                Some(v) => v,
                None => Decimal::zero(),
            },
            evaluations,
            actions,
            metadata,
        };
        Ok((end, model))
    }

    /// Makes the evaluations that `values` describe; a failure is reported at
    /// the offset `at`.
    pub fn parse_evaluations_array(at: usize, values: Vec<Value>) -> (r: Result<
        Vec<Evaluation>,
        SyntaxFailure,
    >)
        ensures
            match r {
                Ok(evaluations) => evaluations_of(views(values@), 0, Seq::empty()) == Ok::<
                    Seq<EvaluationView>,
                    SyntaxIssue,
                >(views(evaluations@)),
                Err(failure) => evaluations_of(views(values@), 0, Seq::empty()) == Err::<
                    Seq<EvaluationView>,
                    SyntaxIssue,
                >(failure.issue) && failure.offset == at,
            },
    {
        let mut out: Vec<Evaluation> = Vec::new();
        let mut i: usize = 0;
        assert(views(out@) =~= Seq::<EvaluationView>::empty());
        while i < values.len()
            invariant
                i <= values@.len(),
                evaluations_of(views(values@), 0, Seq::empty()) == evaluations_of(
                    views(values@),
                    i as int,
                    views(out@),
                ),
            decreases values@.len() - i,
        {
            if let Value::Object(fields) = &values[i] {
                proof {
                    lemma_object_view(*fields);
                }
                match Self::parse_evaluation_from_fields(at, fields.as_slice()) {
                    Err(failure) => {
                        return Err(failure);
                    },
                    Ok((_, evaluation)) => {
                        let ghost before = views(out@);
                        out.push(evaluation);
                        assert(views(out@) =~= before.push(evaluation@));
                    },
                }
            }
            i += 1;
        }
        Ok(out)
    }

    /// Makes the evaluation that the members `fields` describe; a failure
    /// is reported at the offset `at`.
    pub fn parse_evaluation_from_fields(at: usize, fields: &[(String, Value)]) -> (r: Result<
        (usize, Evaluation),
        SyntaxFailure,
    >)
        ensures
            match r {
                Ok((next, evaluation)) => evaluation_of(field_views(fields@)) == Ok::<
                    EvaluationView,
                    SyntaxIssue,
                >(evaluation@) && next == at,
                Err(failure) => evaluation_of(field_views(fields@)) == Err::<
                    EvaluationView,
                    SyntaxIssue,
                >(failure.issue) && failure.offset == at,
            },
    {
        let mut draft = EvaluationFields {
            name: None,
            evaluation_type: None,
            left: None,
            operator: None,
            right: None,
            operands: None,
            weight: None,
            aggregation: None,
        };
        let mut i: usize = 0;
        while i < fields.len()
            invariant
                i <= fields@.len(),
                set_members(field_views(fields@), 0, empty_evaluation()) == set_members(
                    field_views(fields@),
                    i as int,
                    draft@,
                ),
            decreases fields@.len() - i,
        {
            match set_field(draft, fields[i].0.as_str(), &fields[i].1) {
                Err(issue) => {
                    return Err(SyntaxFailure { offset: at, issue });
                },
                Ok(next) => {
                    draft = next;
                },
            }
            i += 1;
        }
        match complete_evaluation(draft) {
            Ok(evaluation) => Ok((at, evaluation)),
            Err(issue) => Err(SyntaxFailure { offset: at, issue }),
        }
    }

    /// Reads the object at `pos` and makes the evaluation that it describes.
    pub fn parse_single_evaluation(text: &[char], pos: usize) -> (r: Result<
        (usize, Evaluation),
        SyntaxFailure,
    >)
        requires
            pos <= text@.len(),
        ensures
            match r {
                Ok((next, evaluation)) => evaluation_at(text@, pos as int) == Ok::<
                    (EvaluationView, int),
                    Located,
                >((evaluation@, next as int)) && next <= text@.len(),
                Err(failure) => evaluation_at(text@, pos as int) == Err::<
                    (EvaluationView, int),
                    Located,
                >(failure.located()) && failure.offset <= text@.len(),
            },
    {
        match Self::parse_object_value(text, pos) {
            Err(_) => Err(SyntaxFailure { offset: pos, issue: SyntaxIssue::EvaluationObject }),
            Ok((e, fields)) => Self::parse_evaluation_from_fields(e, fields.as_slice()),
        }
    }

    /// Makes the actions that `values` describe; a value that describes none
    /// is passed over.
    pub fn parse_actions_array(values: Vec<Value>) -> (actions: Vec<Action>)
        ensures
            views(actions@) == actions_of(views(values@), 0, Seq::empty()),
    {
        let mut out: Vec<Action> = Vec::new();
        let mut i: usize = 0;
        assert(views(out@) =~= Seq::<ActionView>::empty());
        while i < values.len()
            invariant
                i <= values@.len(),
                actions_of(views(values@), 0, Seq::empty()) == actions_of(
                    views(values@),
                    i as int,
                    views(out@),
                ),
            decreases values@.len() - i,
        {
            if let Value::Object(fields) = &values[i] {
                proof {
                    lemma_object_view(*fields);
                }
                if let Ok(action) = Self::parse_action_from_fields(fields.as_slice()) {
                    let ghost before = views(out@);
                    out.push(action);
                    assert(views(out@) =~= before.push(action@));
                }
            }
            i += 1;
        }
        out
    }

    /// Makes the action that the members `fields` describe.
    pub fn parse_action_from_fields(fields: &[(String, Value)]) -> (r: Result<
        Action,
        &'static str,
    >)
        ensures
            match r {
                Ok(action) => action_of(field_views(fields@)) == Some(action@),
                Err(message) => {
                    let draft = action_members(
                        field_views(fields@),
                        0,
                        ActionDraft { action_type: None, reason: None },
                    );
                    &&& action_of(field_views(fields@)) is None
                    &&& draft.action_type is None ==> message@ == "Missing action type"@
                    &&& draft.action_type is Some ==> message@ == "Missing reason"@
                },
            },
    {
        let mut action_type: Option<String> = None;
        let mut reason: Option<String> = None;
        let mut i: usize = 0;
        while i < fields.len()
            invariant
                i <= fields@.len(),
                action_members(
                    field_views(fields@),
                    0,
                    ActionDraft { action_type: None, reason: None },
                ) == action_members(
                    field_views(fields@),
                    i as int,
                    ActionDraft {
                        action_type: view_opt(action_type),
                        reason: view_opt(reason),
                    },
                ),
            decreases fields@.len() - i,
        {
            if let Value::String(v) = &fields[i].1 {
                if same_text(fields[i].0.as_str(), "type") {
                    action_type = Some(v.clone());
                } else if same_text(fields[i].0.as_str(), "reason") {
                    reason = Some(v.clone());
                }
            }
            i += 1;
        }
        let action_type = match action_type {
            Some(v) => v,
            None => {
                return Err("Missing action type");
            },
        };
        let reason = match reason {
            Some(v) => v,
            None => {
                return Err("Missing reason");
            },
        };
        Ok(Action { action_type, reason })
    }

    /// Makes the metadata that the members `fields` describe.
    pub fn parse_metadata_from_fields(fields: &[(String, Value)]) -> (metadata: Metadata)
        ensures
            metadata@ == metadata_of(field_views(fields@)),
    {
        let mut metadata = Metadata {
            created_by: None,
            created_at: None,
            last_updated: None,
            notes: None,
        };
        let mut i: usize = 0;
        while i < fields.len()
            invariant
                i <= fields@.len(),
                metadata_of(field_views(fields@)) == metadata_members(
                    field_views(fields@),
                    i as int,
                    metadata@,
                ),
            decreases fields@.len() - i,
        {
            if let Value::String(v) = &fields[i].1 {
                if same_text(fields[i].0.as_str(), "created_by") {
                    metadata.created_by = Some(v.clone());
                } else if same_text(fields[i].0.as_str(), "created_at") {
                    metadata.created_at = Some(v.clone());
                } else if same_text(fields[i].0.as_str(), "last_updated") {
                    metadata.last_updated = Some(v.clone());
                } else if same_text(fields[i].0.as_str(), "notes") {
                    metadata.notes = Some(v.clone());
                }
            }
            i += 1;
        }
        metadata
    }
}

} // verus!
