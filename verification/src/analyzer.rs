//! The semantic analyzer. It runs its passes over a parsed model in a fixed
//! order and collects every finding: the schema pass, the uniqueness of
//! names, the structure and the references of each evaluation, and the
//! search for a cycle among the dependencies.

use crate::diagnostics::{AnalyzerError, AnalyzerErrorView};
use crate::expression::{datetime_of, references_of};
use crate::graph::{
    acyclic, all_names, contains_name, edge, inserted, is_cycle, DependencyGraph,
};
use crate::parser::{logical_operator, is_logical_operator, LrolModel, ModelView};
use crate::schema::{
    answers_allowed, finding_if, has_timestamps, report, schema_errors, weight_in_range,
};
use crate::search::{
    cycle_report, first_cycle, search_is_right, search_state, visit, Search,
};
use crate::text::{stands_at, to_chars, view_opt, views, word_at};
use crate::types::{clone_strings, Evaluation, EvaluationType, EvaluationView, Value, ValueView};
use vstd::prelude::*;

verus! {

/// The analyzer of rule models. It keeps the names and the dependency graph
/// of the model that it analyzed last.
#[derive(Debug)]
pub struct RuleAnalyzer {
    evaluation_names: Vec<String>,
    dependency_graph: DependencyGraph,
}

/// Whether one of the first `n` evaluations has the name `name`.
pub open spec fn named_before(evaluations: Seq<EvaluationView>, n: int, name: Seq<char>) -> bool {
    exists|i: int| 0 <= i < n && i < evaluations.len() && (#[trigger] evaluations[i]).name == name
}

/// Whether an evaluation has the name `name`.
pub open spec fn declared(evaluations: Seq<EvaluationView>, name: Seq<char>) -> bool {
    named_before(evaluations, evaluations.len() as int, name)
}

/// The names of the first `n` evaluations, each once, in the order in which
/// they first occur.
pub open spec fn first_names(evaluations: Seq<EvaluationView>, n: int) -> Seq<Seq<char>>
    decreases n,
{
    if n <= 0 {
        Seq::empty()
    } else {
        let rest = first_names(evaluations, n - 1);
        if named_before(evaluations, n - 1, evaluations[n - 1].name) {
            rest
        } else {
            rest.push(evaluations[n - 1].name)
        }
    }
}

/// The names that the evaluations of a model declare.
pub open spec fn declared_names(evaluations: Seq<EvaluationView>) -> Seq<Seq<char>> {
    first_names(evaluations, evaluations.len() as int)
}

/// One finding for each of the first `n` evaluations whose name an earlier
/// evaluation has.
pub open spec fn duplicate_errors(evaluations: Seq<EvaluationView>, n: int) -> Seq<
    AnalyzerErrorView,
>
    decreases n,
{
    if n <= 0 {
        Seq::empty()
    } else {
        duplicate_errors(evaluations, n - 1) + finding_if(
            named_before(evaluations, n - 1, evaluations[n - 1].name),
            AnalyzerErrorView::DuplicateEvaluationName(evaluations[n - 1].name),
        )
    }
}

/// The names of the first `n` evaluations are those that occur among them.
pub proof fn lemma_first_names(evaluations: Seq<EvaluationView>, n: int, name: Seq<char>)
    requires
        0 <= n <= evaluations.len(),
    ensures
        first_names(evaluations, n).contains(name) <==> named_before(evaluations, n, name),
    decreases n,
{
    if n > 0 {
        lemma_first_names(evaluations, n - 1, name);
        let rest = first_names(evaluations, n - 1);
        let last = evaluations[n - 1].name;
        if named_before(evaluations, n, name) {
            let i = choose|i: int|
                0 <= i < n && i < evaluations.len() && (#[trigger] evaluations[i]).name == name;
            if i < n - 1 {
                assert(named_before(evaluations, n - 1, name));
            } else if named_before(evaluations, n - 1, last) {
            } else {
                assert(rest.push(last)[rest.len() as int] == name);
            }
            if rest.contains(name) && !named_before(evaluations, n - 1, last) {
                let k = choose|k: int| 0 <= k < rest.len() && rest[k] == name;
                assert(rest.push(last)[k] == name);
            }
        }
        if first_names(evaluations, n).contains(name) {
            if named_before(evaluations, n - 1, last) {
                let i = choose|i: int|
                    0 <= i < n - 1 && i < evaluations.len() && (#[trigger] evaluations[i]).name
                        == name;
                assert(evaluations[i].name == name);
            } else {
                let k = choose|k: int|
                    0 <= k < rest.push(last).len() && rest.push(last)[k] == name;
                if k < rest.len() {
                    assert(rest[k] == name);
                    let i = choose|i: int|
                        0 <= i < n - 1 && i < evaluations.len() && (
                        #[trigger] evaluations[i]).name == name;
                    assert(evaluations[i].name == name);
                } else {
                    assert(evaluations[n - 1].name == name);
                }
            }
        }
    }
}

/// One finding for each of the first `n` references that is not among
/// `names`.
pub open spec fn reference_errors(
    evaluation_name: Seq<char>,
    field_name: Seq<char>,
    references: Seq<Seq<char>>,
    n: int,
    names: Seq<Seq<char>>,
) -> Seq<AnalyzerErrorView>
    decreases n,
{
    if n <= 0 {
        Seq::empty()
    } else {
        reference_errors(evaluation_name, field_name, references, n - 1, names) + finding_if(
            !names.contains(references[n - 1]),
            AnalyzerErrorView::InvalidStringReference {
                evaluation_name,
                field_name,
                reference: references[n - 1],
            },
        )
    }
}

/// One finding for each of the first `n` operands that is not among
/// `names`.
pub open spec fn operand_errors(
    evaluation_name: Seq<char>,
    operands: Seq<Seq<char>>,
    n: int,
    names: Seq<Seq<char>>,
) -> Seq<AnalyzerErrorView>
    decreases n,
{
    if n <= 0 {
        Seq::empty()
    } else {
        operand_errors(evaluation_name, operands, n - 1, names) + finding_if(
            !names.contains(operands[n - 1]),
            AnalyzerErrorView::MissingOperandReference {
                evaluation_name,
                missing_operand: operands[n - 1],
            },
        )
    }
}

/// The right side of an evaluation, where it is a string.
pub open spec fn right_text(e: EvaluationView) -> Option<Seq<char>> {
    match e.right {
        Some(ValueView::String(s)) => Some(s),
        _ => None,
    }
}

/// The finding for a text that begins like a `datetime(..)` expression and
/// is none.
pub open spec fn datetime_errors(
    evaluation_name: Seq<char>,
    field_name: Seq<char>,
    text: Option<Seq<char>>,
) -> Seq<AnalyzerErrorView> {
    match text {
        None => Seq::empty(),
        Some(t) => finding_if(
            stands_at(t, 0, "datetime("@) && datetime_of(t) is Err,
            AnalyzerErrorView::InvalidDateTimeExpression {
                evaluation_name,
                field_name,
                expression: t,
                reason: datetime_of(t)->Err_0,
            },
        ),
    }
}

/// The findings for the references of a text that are not among `names`.
pub open spec fn text_reference_errors(
    evaluation_name: Seq<char>,
    field_name: Seq<char>,
    text: Option<Seq<char>>,
    names: Seq<Seq<char>>,
) -> Seq<AnalyzerErrorView> {
    match text {
        None => Seq::empty(),
        Some(t) => reference_errors(
            evaluation_name,
            field_name,
            references_of(t),
            references_of(t).len() as int,
            names,
        ),
    }
}

/// The findings for a weight outside `1..=5`: the same finding twice.
pub open spec fn weight_errors(e: EvaluationView) -> Seq<AnalyzerErrorView> {
    finding_if(
        e.weight is Some && !weight_in_range(e.weight->0),
        AnalyzerErrorView::InvalidWeight { evaluation_name: e.name, weight: e.weight->0 },
    ) + finding_if(
        e.weight is Some && !weight_in_range(e.weight->0),
        AnalyzerErrorView::InvalidWeight { evaluation_name: e.name, weight: e.weight->0 },
    )
}

/// The finding for a field that an evaluation of its kind must have.
pub open spec fn missing_field(e: EvaluationView, field_name: Seq<char>) -> AnalyzerErrorView {
    AnalyzerErrorView::MissingRequiredField { evaluation_name: e.name, field_name }
}

/// What an evaluation lacks for its kind: a logical one has one of the
/// operators `AND` and `OR` and operands, at least one; a comparison has a
/// left side, an operator and a right side.
pub open spec fn kind_errors(e: EvaluationView) -> Seq<AnalyzerErrorView> {
    match e.evaluation_type {
        EvaluationType::Logical => finding_if(
            e.operator is Some && !logical_operator(e.operator->0),
            AnalyzerErrorView::InvalidLogicalOperator {
                evaluation_name: e.name,
                operator: e.operator->0,
            },
        ) + finding_if(e.operator is None, missing_field(e, "operator"@)) + finding_if(
            e.operands is Some && e.operands->0.len() == 0,
            AnalyzerErrorView::EmptyOperands(e.name),
        ) + finding_if(e.operands is None, missing_field(e, "operands"@)),
        EvaluationType::Comparison => finding_if(e.left is None, missing_field(e, "left"@)) + finding_if(
            e.operator is None,
            missing_field(e, "operator"@),
        ) + finding_if(e.right is None, missing_field(e, "right"@)),
        _ => Seq::empty(),
    }
}

/// The findings for the operands of an evaluation that are not among
/// `names`.
pub open spec fn operands_errors(e: EvaluationView, names: Seq<Seq<char>>) -> Seq<
    AnalyzerErrorView,
> {
    match e.operands {
        None => Seq::empty(),
        Some(operands) => operand_errors(e.name, operands, operands.len() as int, names),
    }
}

/// The findings of the structural pass for one evaluation, where `names`
/// are the names that the model declares.
pub open spec fn evaluation_errors(e: EvaluationView, names: Seq<Seq<char>>) -> Seq<
    AnalyzerErrorView,
> {
    datetime_errors(e.name, "left"@, e.left) + datetime_errors(e.name, "right"@, right_text(e))
        + text_reference_errors(e.name, "left"@, e.left, names) + text_reference_errors(
        e.name,
        "right"@,
        right_text(e),
        names,
    ) + weight_errors(e) + kind_errors(e) + operands_errors(e, names)
}

/// The findings of the structural pass for the first `n` evaluations.
pub open spec fn structure_errors(
    evaluations: Seq<EvaluationView>,
    n: int,
    names: Seq<Seq<char>>,
) -> Seq<AnalyzerErrorView>
    decreases n,
{
    if n <= 0 {
        Seq::empty()
    } else {
        structure_errors(evaluations, n - 1, names) + evaluation_errors(evaluations[n - 1], names)
    }
}

/// The references of a text, none where there is no text.
pub open spec fn references_in_text(text: Option<Seq<char>>) -> Seq<Seq<char>> {
    match text {
        None => Seq::empty(),
        Some(t) => references_of(t),
    }
}

/// The names that an evaluation depends on: its operands and the
/// references of its left and right side.
pub open spec fn dependencies_of(e: EvaluationView) -> Seq<Seq<char>> {
    (match e.operands {
        Some(operands) => operands,
        None => Seq::empty(),
    }) + references_in_text(e.left) + references_in_text(right_text(e))
}

/// The dependency graph of the first `n` evaluations: an entry for each
/// evaluation that depends on anything; of two with the same name the later
/// one counts.
pub open spec fn graph_of(evaluations: Seq<EvaluationView>, n: int) -> Seq<
    (Seq<char>, Seq<Seq<char>>),
>
    decreases n,
{
    if n <= 0 {
        Seq::empty()
    } else {
        let g = graph_of(evaluations, n - 1);
        let deps = dependencies_of(evaluations[n - 1]);
        if deps.len() > 0 {
            inserted(g, evaluations[n - 1].name, deps)
        } else {
            g
        }
    }
}

/// The dependency graph of a model.
pub open spec fn dependency_graph_of(m: ModelView) -> Seq<(Seq<char>, Seq<Seq<char>>)> {
    graph_of(m.evaluations, m.evaluations.len() as int)
}

/// The findings of all passes but the search for a cycle, in the order of
/// the passes.
pub open spec fn checked_errors(m: ModelView, created_ok: bool, updated_ok: bool) -> Seq<
    AnalyzerErrorView,
> {
    schema_errors(m, created_ok, updated_ok) + duplicate_errors(
        m.evaluations,
        m.evaluations.len() as int,
    ) + structure_errors(m.evaluations, m.evaluations.len() as int, declared_names(m.evaluations))
}

/// The finding for the first cycle that the search finds in a graph.
pub open spec fn cycle_errors(g: Seq<(Seq<char>, Seq<Seq<char>>)>) -> Seq<AnalyzerErrorView> {
    match first_cycle(g) {
        Some((start, chain)) => seq![
            AnalyzerErrorView::CircularDependency {
                evaluation_name: start,
                dependency_chain: chain,
            },
        ],
        None => Seq::empty(),
    }
}

/// What the analysis of a model finds, where `created_ok` and `updated_ok`
/// say whether the two timestamps of its metadata are valid: the findings
/// of the passes in order and, where the dependency graph has a cycle, the
/// report of the first one that the search finds.
pub open spec fn analysis_errors(m: ModelView, created_ok: bool, updated_ok: bool) -> Seq<
    AnalyzerErrorView,
> {
    checked_errors(m, created_ok, updated_ok) + cycle_errors(dependency_graph_of(m))
}

/// For a model without timestamps, the analysis does not depend on what is
/// said of their validity.
pub proof fn lemma_analysis_without_timestamps(m: ModelView, created_ok: bool, updated_ok: bool)
    requires
        !has_timestamps(m),
    ensures
        analysis_errors(m, created_ok, updated_ok) == analysis_errors(m, true, true),
{
    assert(schema_errors(m, created_ok, updated_ok) =~= schema_errors(m, true, true));
}

/// The findings that the result of an analysis carries.
pub open spec fn reported(r: Result<(), Vec<AnalyzerError>>) -> Seq<AnalyzerErrorView> {
    match r {
        Ok(()) => Seq::empty(),
        Err(errors) => views(errors@),
    }
}

/// The right side of an evaluation, where it is a string.
pub fn right_string(evaluation: &Evaluation) -> (r: Option<&String>)
    ensures
        view_opt(r) == right_text(evaluation@),
{
    match &evaluation.right {
        Some(Value::String(s)) => Some(s),
        _ => None,
    }
}

/// Whether a text begins like a `datetime(..)` expression.
pub fn is_datetime_call(text: &str) -> (b: bool)
    ensures
        b == stands_at(text@, 0, "datetime("@),
{
    let chars = to_chars(text);
    word_at(chars.as_slice(), 0, "datetime(")
}

impl RuleAnalyzer {
    /// The names of the model that was analyzed last.
    pub closed spec fn names(&self) -> Seq<Seq<char>> {
        views(self.evaluation_names@)
    }

    /// The dependency graph of the model that was analyzed last.
    pub closed spec fn graph(&self) -> Seq<(Seq<char>, Seq<Seq<char>>)> {
        self.dependency_graph@
    }

    /// An analyzer that has seen no model.
    pub fn new() -> (analyzer: RuleAnalyzer)
        ensures
            analyzer.names() == Seq::<Seq<char>>::empty(),
            analyzer.graph() == Seq::<(Seq<char>, Seq<Seq<char>>)>::empty(),
            analyzer.graph_wf(),
    {
        let analyzer = RuleAnalyzer {
            evaluation_names: Vec::new(),
            dependency_graph: DependencyGraph::new(),
        };
        assert(views(analyzer.evaluation_names@) =~= Seq::<Seq<char>>::empty());
        analyzer
    }

    /// Analyzes a model. A timestamp of its metadata that does not end in
    /// a zone offset of 24 hours or more is held against the forms that
    /// `dateparser` knows; everything else is decided here.
    /// What the analyzer kept of an earlier model is dropped.
    pub fn analyze(&mut self, model: &LrolModel) -> (r: Result<(), Vec<AnalyzerError>>)
        ensures
            exists|created_ok: bool, updated_ok: bool|
                answers_allowed(model@, created_ok, updated_ok) && reported(r)
                    == #[trigger] analysis_errors(model@, created_ok, updated_ok),
            !has_timestamps(model@) ==> reported(r) == analysis_errors(model@, true, true),
            r matches Err(errors) ==> errors@.len() > 0,
            search_is_right(dependency_graph_of(model@)),
            final(self).names() == declared_names(model@.evaluations),
            final(self).graph() == dependency_graph_of(model@),
            final(self).graph_wf(),
    {
        let (created_ok, updated_ok) = Self::timestamps_are_valid(model);
        proof {
            if !has_timestamps(model@) {
                lemma_analysis_without_timestamps(model@, created_ok, updated_ok);
            }
        }
        self.analyze_with(model, created_ok, updated_ok)
    }

    /// Analyzes a model, given whether the two timestamps of its metadata
    /// are valid. Every pass runs, whatever the passes before it found.
    pub fn analyze_with(&mut self, model: &LrolModel, created_ok: bool, updated_ok: bool) -> (r:
        Result<(), Vec<AnalyzerError>>)
        ensures
            reported(r) == analysis_errors(model@, created_ok, updated_ok),
            r matches Err(errors) ==> errors@.len() > 0,
            search_is_right(dependency_graph_of(model@)),
            final(self).names() == declared_names(model@.evaluations),
            final(self).graph() == dependency_graph_of(model@),
            final(self).graph_wf(),
    {
        let mut errors: Vec<AnalyzerError> = Vec::new();
        assert(views(errors@) =~= Seq::<AnalyzerErrorView>::empty());
        Self::check_schema(model, created_ok, updated_ok, &mut errors);
        let ghost after_schema = views(errors@);
        assert(after_schema =~= schema_errors(model@, created_ok, updated_ok));

        self.evaluation_names = Vec::new();
        self.dependency_graph = DependencyGraph::new();
        self.record_names(model, &mut errors);
        self.check_evaluations(model, &mut errors);
        let ghost found = views(errors@);
        assert(found =~= checked_errors(model@, created_ok, updated_ok));
        assert(self.dependency_graph@ == dependency_graph_of(model@));
        match self.check_circular_dependencies() {
            Err(cycle) => {
                report(&mut errors, cycle);
                proof {
                    let chain = cycle@->dependency_chain;
                    assert(is_cycle(dependency_graph_of(model@), chain));
                }
            },
            Ok(()) => {
                assert(found + cycle_errors(dependency_graph_of(model@)) =~= found);
            },
        }
        if errors.len() == 0 {
            assert(views(errors@) =~= Seq::<AnalyzerErrorView>::empty());
            Ok(())
        } else {
            Err(errors)
        }
    }

    /// The pass over the names: keeps each name that the evaluations
    /// declare, once and in the order of their first occurrence, and adds
    /// to `errors` a finding for each evaluation whose name an earlier one
    /// has.
    fn record_names(&mut self, model: &LrolModel, errors: &mut Vec<AnalyzerError>)
        requires
            old(self).evaluation_names@.len() == 0,
        ensures
            views(final(self).evaluation_names@) == declared_names(model@.evaluations),
            final(self).dependency_graph == old(self).dependency_graph,
            views(final(errors)@) == views(old(errors)@) + duplicate_errors(
                model@.evaluations,
                model@.evaluations.len() as int,
            ),
    {
        let ghost evaluations = model@.evaluations;
        let ghost before = views(errors@);
        assert(views(self.evaluation_names@) =~= Seq::<Seq<char>>::empty());
        assert(before + duplicate_errors(evaluations, 0) =~= before);
        let mut i: usize = 0;
        while i < model.evaluations.len()
            invariant
                i <= model.evaluations@.len(),
                evaluations == model@.evaluations,
                views(self.evaluation_names@) == first_names(evaluations, i as int),
                views(errors@) == before + duplicate_errors(evaluations, i as int),
                self.dependency_graph == old(self).dependency_graph,
            decreases model.evaluations@.len() - i,
        {
            let evaluation = &model.evaluations[i];
            proof {
                assert(evaluations[i as int] == evaluation@);
                lemma_first_names(evaluations, i as int, evaluation@.name);
            }
            if contains_name(&self.evaluation_names, &evaluation.name) {
                report(errors, AnalyzerError::DuplicateEvaluationName(evaluation.name.clone()));
            } else {
                let ghost kept = views(self.evaluation_names@);
                self.evaluation_names.push(evaluation.name.clone());
                assert(views(self.evaluation_names@) =~= kept.push(evaluation@.name));
            }
            assert(views(errors@) =~= before + duplicate_errors(evaluations, i + 1));
            i += 1;
        }
    }

    /// The structural pass: adds to `errors` what is wrong with each
    /// evaluation, and enters into the dependency graph each evaluation
    /// that depends on others.
    fn check_evaluations(&mut self, model: &LrolModel, errors: &mut Vec<AnalyzerError>)
        requires
            views(old(self).evaluation_names@) == declared_names(model@.evaluations),
            old(self).dependency_graph@.len() == 0,
            old(self).dependency_graph.wf(),
        ensures
            final(self).evaluation_names == old(self).evaluation_names,
            final(self).dependency_graph@ == dependency_graph_of(model@),
            final(self).dependency_graph.wf(),
            views(final(errors)@) == views(old(errors)@) + structure_errors(
                model@.evaluations,
                model@.evaluations.len() as int,
                declared_names(model@.evaluations),
            ),
    {
        let ghost evaluations = model@.evaluations;
        let ghost before = views(errors@);
        let ghost names = declared_names(evaluations);
        assert(before + structure_errors(evaluations, 0, names) =~= before);
        assert(self.dependency_graph@ =~= graph_of(evaluations, 0));
        let mut k: usize = 0;
        while k < model.evaluations.len()
            invariant
                k <= model.evaluations@.len(),
                evaluations == model@.evaluations,
                names == declared_names(evaluations),
                self.evaluation_names == old(self).evaluation_names,
                views(self.evaluation_names@) == names,
                views(errors@) == before + structure_errors(evaluations, k as int, names),
                self.dependency_graph@ == graph_of(evaluations, k as int),
                self.dependency_graph.wf(),
            decreases model.evaluations@.len() - k,
        {
            let evaluation = &model.evaluations[k];
            assert(evaluations[k as int] == evaluation@);
            self.validate_evaluation(evaluation, errors);
            assert(views(errors@) =~= before + structure_errors(evaluations, k + 1, names));

            let mut dependencies: Vec<String> = Vec::new();
            assert(views(dependencies@) =~= Seq::<Seq<char>>::empty());
            if let Some(operands) = &evaluation.operands {
                let copies = clone_strings(operands);
                dependencies = copies;
            }
            self.collect_string_references(evaluation, &mut dependencies);
            assert(views(dependencies@) =~= dependencies_of(evaluation@));
            if dependencies.len() > 0 {
                self.dependency_graph.insert(evaluation.name.clone(), dependencies);
            }
            k += 1;
        }
    }

    /// The structural pass for one evaluation: adds to `errors` what is
    /// wrong with its expressions, its references, its weight, the fields
    /// of its kind and its operands.
    pub fn validate_evaluation(&self, evaluation: &Evaluation, errors: &mut Vec<AnalyzerError>)
        ensures
            views(final(errors)@) == views(old(errors)@) + evaluation_errors(
                evaluation@,
                self.names(),
            ),
    {
        let ghost before = views(errors@);
        let ghost e = evaluation@;
        self.validate_datetime_expressions(evaluation, errors);
        self.validate_string_references(evaluation, errors);
        Self::validate_weight(evaluation, errors);
        Self::validate_kind(evaluation, errors);
        self.validate_operands(evaluation, errors);
        assert(views(errors@) =~= before + evaluation_errors(e, self.names()));
    }

    /// Adds to `errors` the findings for a weight outside `1..=5`. The check
    /// is made twice, and each time it reports.
    pub fn validate_weight(evaluation: &Evaluation, errors: &mut Vec<AnalyzerError>)
        ensures
            views(final(errors)@) == views(old(errors)@) + weight_errors(evaluation@),
    {
        let ghost before = views(errors@);
        if let Some(weight) = evaluation.weight {
            if weight < 1 || weight > 5 {
                report(
                    errors,
                    AnalyzerError::InvalidWeight {
                        evaluation_name: evaluation.name.clone(),
                        weight,
                    },
                );
            }
        }
        if let Some(weight) = evaluation.weight {
            if weight < 1 || weight > 5 {
                report(
                    errors,
                    AnalyzerError::InvalidWeight {
                        evaluation_name: evaluation.name.clone(),
                        weight,
                    },
                );
            }
        }
        assert(views(errors@) =~= before + weight_errors(evaluation@));
    }

    /// Adds to `errors` the finding for a field that is missing.
    fn report_missing(evaluation: &Evaluation, field_name: &str, errors: &mut Vec<AnalyzerError>)
        ensures
            views(final(errors)@) == views(old(errors)@) + seq![
                missing_field(evaluation@, field_name@),
            ],
    {
        report(
            errors,
            AnalyzerError::MissingRequiredField {
                evaluation_name: evaluation.name.clone(),
                field_name: field_name.to_string(),
            },
        );
    }

    /// Adds to `errors` what a logical evaluation lacks.
    fn validate_logical(evaluation: &Evaluation, errors: &mut Vec<AnalyzerError>)
        requires
            evaluation.evaluation_type == EvaluationType::Logical,
        ensures
            views(final(errors)@) == views(old(errors)@) + kind_errors(evaluation@),
    {
        let ghost before = views(errors@);
        match &evaluation.operator {
            Some(operator) => {
                if !is_logical_operator(operator.as_str()) {
                    report(
                        errors,
                        AnalyzerError::InvalidLogicalOperator {
                            evaluation_name: evaluation.name.clone(),
                            operator: operator.clone(),
                        },
                    );
                }
            },
            None => {
                Self::report_missing(evaluation, "operator", errors);
            },
        }
        match &evaluation.operands {
            Some(operands) => {
                if operands.len() == 0 {
                    report(errors, AnalyzerError::EmptyOperands(evaluation.name.clone()));
                }
            },
            None => {
                Self::report_missing(evaluation, "operands", errors);
            },
        }
        assert(views(errors@) =~= before + kind_errors(evaluation@));
    }

    /// Adds to `errors` what a comparison lacks.
    fn validate_comparison(evaluation: &Evaluation, errors: &mut Vec<AnalyzerError>)
        requires
            evaluation.evaluation_type == EvaluationType::Comparison,
        ensures
            views(final(errors)@) == views(old(errors)@) + kind_errors(evaluation@),
    {
        let ghost before = views(errors@);
        if evaluation.left.is_none() {
            Self::report_missing(evaluation, "left", errors);
        }
        if evaluation.operator.is_none() {
            Self::report_missing(evaluation, "operator", errors);
        }
        if evaluation.right.is_none() {
            Self::report_missing(evaluation, "right", errors);
        }
        assert(views(errors@) =~= before + kind_errors(evaluation@));
    }

    /// Adds to `errors` what an evaluation lacks for its kind.
    pub fn validate_kind(evaluation: &Evaluation, errors: &mut Vec<AnalyzerError>)
        ensures
            views(final(errors)@) == views(old(errors)@) + kind_errors(evaluation@),
    {
        let ghost before = views(errors@);
        match evaluation.evaluation_type {
            EvaluationType::Logical => {
                Self::validate_logical(evaluation, errors);
            },
            EvaluationType::Comparison => {
                Self::validate_comparison(evaluation, errors);
            },
            _ => {
                assert(before + kind_errors(evaluation@) =~= before);
            },
        }
    }

    /// Adds to `errors` a finding for each operand of an evaluation that
    /// names no evaluation.
    pub fn validate_operands(&self, evaluation: &Evaluation, errors: &mut Vec<AnalyzerError>)
        ensures
            views(final(errors)@) == views(old(errors)@) + operands_errors(
                evaluation@,
                self.names(),
            ),
    {
        let ghost before = views(errors@);
        let ghost e = evaluation@;
        match &evaluation.operands {
            None => {
                assert(before + operands_errors(e, self.names()) =~= before);
            },
            Some(operands) => {
                let mut i: usize = 0;
                assert(before + operand_errors(e.name, views(operands@), 0, self.names())
                    =~= before);
                while i < operands.len()
                    invariant
                        i <= operands@.len(),
                        e == evaluation@,
                        views(errors@) == before + operand_errors(
                            e.name,
                            views(operands@),
                            i as int,
                            self.names(),
                        ),
                    decreases operands@.len() - i,
                {
                    assert(views(operands@)[i as int] == operands@[i as int]@);
                    if !contains_name(&self.evaluation_names, &operands[i]) {
                        report(
                            errors,
                            AnalyzerError::MissingOperandReference {
                                evaluation_name: evaluation.name.clone(),
                                missing_operand: operands[i].clone(),
                            },
                        );
                    }
                    assert(views(errors@) =~= before + operand_errors(
                        e.name,
                        views(operands@),
                        i + 1,
                        self.names(),
                    ));
                    i += 1;
                }
            },
        }
    }

    /// Adds to `dependencies` the references of the left and the right side
    /// of an evaluation.
    pub fn collect_string_references(&self, evaluation: &Evaluation, dependencies: &mut Vec<String>)
        ensures
            views(final(dependencies)@) == views(old(dependencies)@) + references_in_text(
                evaluation@.left,
            ) + references_in_text(right_text(evaluation@)),
    {
        let ghost before = views(dependencies@);
        if let Some(left) = &evaluation.left {
            let refs = Self::extract_references(left.as_str());
            append_strings(dependencies, refs);
        }
        let ghost middle = views(dependencies@);
        assert(middle =~= before + references_in_text(evaluation@.left));
        if let Some(right) = right_string(evaluation) {
            let refs = Self::extract_references(right.as_str());
            append_strings(dependencies, refs);
        }
        assert(views(dependencies@) =~= middle + references_in_text(right_text(evaluation@)));
    }

    /// Adds to `errors` a finding for each reference in `text` that names no
    /// evaluation.
    fn validate_references_in(
        &self,
        evaluation: &Evaluation,
        field_name: &str,
        text: Option<&String>,
        errors: &mut Vec<AnalyzerError>,
    )
        ensures
            views(final(errors)@) == views(old(errors)@) + text_reference_errors(
                evaluation@.name,
                field_name@,
                view_opt(text),
                self.names(),
            ),
    {
        let ghost before = views(errors@);
        match text {
            None => {
                assert(before + Seq::<AnalyzerErrorView>::empty() =~= before);
            },
            Some(t) => {
                let refs = Self::extract_references(t.as_str());
                let mut i: usize = 0;
                assert(before + reference_errors(
                    evaluation@.name,
                    field_name@,
                    views(refs@),
                    0,
                    self.names(),
                ) =~= before);
                while i < refs.len()
                    invariant
                        i <= refs@.len(),
                        views(errors@) == before + reference_errors(
                            evaluation@.name,
                            field_name@,
                            views(refs@),
                            i as int,
                            self.names(),
                        ),
                    decreases refs@.len() - i,
                {
                    assert(views(refs@)[i as int] == refs@[i as int]@);
                    if !contains_name(&self.evaluation_names, &refs[i]) {
                        report(
                            errors,
                            AnalyzerError::InvalidStringReference {
                                evaluation_name: evaluation.name.clone(),
                                field_name: field_name.to_string(),
                                reference: refs[i].clone(),
                            },
                        );
                    }
                    assert(views(errors@) =~= before + reference_errors(
                        evaluation@.name,
                        field_name@,
                        views(refs@),
                        i + 1,
                        self.names(),
                    ));
                    i += 1;
                }
            },
        }
    }

    /// Adds to `errors` a finding for each reference in the left and the
    /// right side of an evaluation that names no evaluation.
    pub fn validate_string_references(
        &self,
        evaluation: &Evaluation,
        errors: &mut Vec<AnalyzerError>,
    )
        ensures
            views(final(errors)@) == views(old(errors)@) + text_reference_errors(
                evaluation@.name,
                "left"@,
                evaluation@.left,
                self.names(),
            ) + text_reference_errors(
                evaluation@.name,
                "right"@,
                right_text(evaluation@),
                self.names(),
            ),
    {
        let left = match &evaluation.left {
            Some(text) => Some(text),
            None => None,
        };
        self.validate_references_in(evaluation, "left", left, errors);
        self.validate_references_in(evaluation, "right", right_string(evaluation), errors);
    }

    /// Adds to `errors` a finding where `text` begins like a `datetime(..)`
    /// expression and is none.
    fn validate_datetime_in(
        evaluation: &Evaluation,
        field_name: &str,
        text: Option<&String>,
        errors: &mut Vec<AnalyzerError>,
    )
        ensures
            views(final(errors)@) == views(old(errors)@) + datetime_errors(
                evaluation@.name,
                field_name@,
                view_opt(text),
            ),
    {
        let ghost before = views(errors@);
        if let Some(t) = text {
            if is_datetime_call(t.as_str()) {
                if let Err(reason) = Self::parse_datetime_expression(t.as_str()) {
                    report(
                        errors,
                        AnalyzerError::InvalidDateTimeExpression {
                            evaluation_name: evaluation.name.clone(),
                            field_name: field_name.to_string(),
                            expression: t.clone(),
                            reason,
                        },
                    );
                }
            }
        }
        assert(views(errors@) =~= before + datetime_errors(
            evaluation@.name,
            field_name@,
            view_opt(text),
        ));
    }

    /// Adds to `errors` a finding for the left and for the right side of an
    /// evaluation where it begins like a `datetime(..)` expression and is
    /// none.
    pub fn validate_datetime_expressions(
        &self,
        evaluation: &Evaluation,
        errors: &mut Vec<AnalyzerError>,
    )
        ensures
            views(final(errors)@) == views(old(errors)@) + datetime_errors(
                evaluation@.name,
                "left"@,
                evaluation@.left,
            ) + datetime_errors(evaluation@.name, "right"@, right_text(evaluation@)),
    {
        let left = match &evaluation.left {
            Some(text) => Some(text),
            None => None,
        };
        Self::validate_datetime_in(evaluation, "left", left, errors);
        Self::validate_datetime_in(evaluation, "right", right_string(evaluation), errors);
    }

    /// Whether the dependency graph is well formed: no name has two entries.
    pub closed spec fn graph_wf(&self) -> bool {
        self.dependency_graph.wf()
    }

    /// Searches the dependency graph from `node` on, depth first, with the
    /// names on the way to `node` in `path` and the names that are fully
    /// explored in `visited`.
    pub fn detect_cycle(
        &self,
        node: &String,
        visited: &mut Vec<String>,
        path: &mut Vec<String>,
    ) -> (r: Option<Vec<String>>)
        requires
            self.graph_wf(),
            search_state(self.graph(), views(old(path)@), views(old(visited)@)),
            all_names(self.graph()).contains(node@),
            old(path)@.len() > 0 ==> edge(self.graph(), views(old(path)@).last(), node@),
        ensures
            visit(self.graph(), node@, views(old(path)@), views(old(visited)@)) == (Search {
                cycle: match r {
                    Some(chain) => Some(views(chain@)),
                    None => None,
                },
                path: views(final(path)@),
                done: views(final(visited)@),
            }),
    {
        self.dependency_graph.detect_cycle(node, visited, path)
    }

    /// Looks for a cycle among the dependencies and reports the first one
    /// that a search in depth finds, starting from each entry in turn.
    pub fn check_circular_dependencies(&self) -> (r: Result<(), AnalyzerError>)
        requires
            self.graph_wf(),
        ensures
            match r {
                Ok(()) => first_cycle(self.graph()) is None && acyclic(self.graph()),
                Err(e) => first_cycle(self.graph()) matches Some((start, chain)) && e@ == (
                AnalyzerErrorView::CircularDependency {
                    evaluation_name: start,
                    dependency_chain: chain,
                }) && cycle_report(self.graph(), e@),
            },
    {
        self.dependency_graph.find_cycle()
    }
}

/// Moves the strings of `more` to the end of `list`.
pub fn append_strings(list: &mut Vec<String>, more: Vec<String>)
    ensures
        views(final(list)@) == views(old(list)@) + views(more@),
{
    let ghost before = views(list@);
    let mut more = more;
    let ghost added = views(more@);
    list.append(&mut more);
    assert(views(list@) =~= before + added);
}

} // verus!
