//! What can be said of a valid model beyond its validity: how many
//! evaluations of which kind it has, what they depend on, how complex it
//! is, and what its author might reconsider.

use crate::analyzer::{
    append_strings, dependencies_of, graph_of, is_datetime_call, right_string, right_text,
    RuleAnalyzer,
};
use crate::decimal::smaller;
use crate::error::{decimal_digits, push_decimal};
use crate::expression::references_of;
use crate::graph::DependencyGraph;
use crate::parser::{LrolModel, ModelView};
use crate::text::{same_text, stands_at, view_opt, views};
use crate::types::{
    clone_strings, Action, ActionView, Evaluation, EvaluationType, EvaluationView,
};
use vstd::prelude::*;

verus! {

/// How much a warning matters.
#[derive(Debug, Clone, Copy, PartialEq, Eq, Structural)]
pub enum WarningSeverity {
    Low,
    Medium,
    High,
}

/// What a warning is about.
#[derive(Debug, Clone, Copy, PartialEq, Eq, Structural)]
pub enum WarningCategory {
    Complexity,
    Performance,
    Maintainability,
    BestPractice,
}

/// Something about a model that its author might reconsider.
#[derive(Debug, Clone, PartialEq)]
pub struct AnalysisWarning {
    pub severity: WarningSeverity,
    pub category: WarningCategory,
    pub message: String,
    pub context: String,
}

/// What a warning stands for.
pub struct WarningView {
    pub severity: WarningSeverity,
    pub category: WarningCategory,
    pub message: Seq<char>,
    pub context: Seq<char>,
}

impl View for AnalysisWarning {
    type V = WarningView;

    open spec fn view(&self) -> WarningView {
        WarningView {
            severity: self.severity,
            category: self.category,
            message: self.message@,
            context: self.context@,
        }
    }
}

/// The numbers of a model.
#[derive(Debug, Clone, PartialEq)]
pub struct AnalysisSummary {
    pub total_evaluations: usize,
    /// How many evaluations there are of each kind that occurs, in the
    /// order in which the kinds first occur.
    pub evaluation_types: Vec<(String, usize)>,
    pub max_evaluation_depth: usize,
    /// How many evaluations depend on anything.
    pub dependency_count: usize,
    /// The complexity of the model, in tenths.
    pub complexity_tenths: u64,
}

/// The details of a model.
#[derive(Debug)]
pub struct AnalysisDetails {
    pub evaluation_dependencies: DependencyGraph,
    pub datetime_expressions: Vec<String>,
    pub reference_chains: Vec<Vec<String>>,
    /// The weight of each evaluation that has one, by name, in the order in
    /// which the names first occur; of two evaluations with one name the
    /// later one counts.
    pub evaluation_weights: Vec<(String, i32)>,
}

/// All that is said of a model.
#[derive(Debug)]
pub struct AnalysisReport {
    pub file_path: String,
    pub summary: AnalysisSummary,
    pub details: AnalysisDetails,
    pub warnings: Vec<AnalysisWarning>,
    pub suggestions: Vec<String>,
}

impl EvaluationType {
    /// The name of the kind as it is counted.
    pub open spec fn label(self) -> Seq<char> {
        match self {
            EvaluationType::Comparison => "Comparison"@,
            EvaluationType::Logical => "Logical"@,
            EvaluationType::Aggregation => "Aggregation"@,
            EvaluationType::TimeBased => "TimeBased"@,
            EvaluationType::Conditional => "Conditional"@,
        }
    }

    /// The name of the kind as it is counted.
    pub fn label_text(&self) -> (s: &'static str)
        ensures
            s@ == self.label(),
    {
        match self {
            EvaluationType::Comparison => "Comparison",
            EvaluationType::Logical => "Logical",
            EvaluationType::Aggregation => "Aggregation",
            EvaluationType::TimeBased => "TimeBased",
            EvaluationType::Conditional => "Conditional",
        }
    }
}

/// The keys and values of a list of pairs as the contracts see them.
pub open spec fn pair_views<T>(pairs: Seq<(String, T)>) -> Seq<(Seq<char>, T)> {
    Seq::new(pairs.len(), |i: int| (pairs[i].0@, pairs[i].1))
}

/// The index of the first pair with the key `key`, or the length of the
/// list.
pub open spec fn entry_index<T>(pairs: Seq<(Seq<char>, T)>, key: Seq<char>) -> int
    decreases pairs.len(),
{
    if pairs.len() == 0 {
        0
    } else {
        let before = entry_index(pairs.drop_last(), key);
        if before < pairs.len() - 1 {
            before
        } else if pairs.last().0 == key {
            pairs.len() - 1
        } else {
            pairs.len() as int
        }
    }
}

/// The index of a key is that of the first pair that has it.
pub proof fn lemma_entry_index<T>(pairs: Seq<(Seq<char>, T)>, key: Seq<char>)
    ensures
        0 <= entry_index(pairs, key) <= pairs.len(),
        entry_index(pairs, key) < pairs.len() ==> pairs[entry_index(pairs, key)].0 == key,
        forall|i: int| 0 <= i < entry_index(pairs, key) ==> (#[trigger] pairs[i]).0 != key,
    decreases pairs.len(),
{
    if pairs.len() > 0 {
        lemma_entry_index(pairs.drop_last(), key);
        let before = entry_index(pairs.drop_last(), key);
        assert forall|i: int| 0 <= i < entry_index(pairs, key) implies (#[trigger] pairs[i]).0
            != key by {
            if i < pairs.len() - 1 {
                assert(pairs.drop_last()[i] == pairs[i]);
            }
        }
        if before < pairs.len() - 1 {
            assert(pairs.drop_last()[before] == pairs[before]);
        }
    }
}

/// The index of the first pair with the key `key`, if there is one.
pub fn find_entry<T>(pairs: &Vec<(String, T)>, key: &str) -> (r: Option<usize>)
    ensures
        match r {
            Some(i) => i == entry_index(pair_views(pairs@), key@) && i < pairs@.len(),
            None => entry_index(pair_views(pairs@), key@) == pairs@.len(),
        },
{
    let ghost all = pair_views(pairs@);
    let mut i: usize = 0;
    while i < pairs.len()
        invariant
            i <= pairs@.len(),
            all == pair_views(pairs@),
            forall|j: int| 0 <= j < i ==> (#[trigger] all[j]).0 != key@,
        decreases pairs@.len() - i,
    {
        if same_text(pairs[i].0.as_str(), key) {
            proof {
                lemma_entry_index(all, key@);
                assert(all[i as int].0 == key@);
                let e = entry_index(all, key@);
                if e < i {
                    assert(all[e].0 == key@);
                }
            }
            return Some(i);
        }
        i += 1;
    }
    proof {
        lemma_entry_index(all, key@);
        let e = entry_index(all, key@);
        if e < all.len() {
            assert(all[e].0 == key@);
        }
    }
    None
}

/// The list with the value of `key` set: in its old place where the key had
/// one, at the end where it had none.
pub open spec fn assigned<T>(pairs: Seq<(Seq<char>, T)>, key: Seq<char>, value: T) -> Seq<
    (Seq<char>, T),
> {
    if entry_index(pairs, key) < pairs.len() {
        pairs.update(entry_index(pairs, key), (key, value))
    } else {
        pairs.push((key, value))
    }
}

/// The value of `key` in the list, or `otherwise`.
pub open spec fn value_of<T>(pairs: Seq<(Seq<char>, T)>, key: Seq<char>, otherwise: T) -> T {
    if entry_index(pairs, key) < pairs.len() {
        pairs[entry_index(pairs, key)].1
    } else {
        otherwise
    }
}

/// Sets the value of `key`.
pub fn assign<T: Copy>(pairs: &mut Vec<(String, T)>, key: &str, value: T)
    ensures
        pair_views(final(pairs)@) == assigned(pair_views(old(pairs)@), key@, value),
{
    let ghost before = pair_views(pairs@);
    match find_entry(pairs, key) {
        Some(i) => {
            pairs.set(i, (key.to_string(), value));
            assert(pair_views(pairs@) =~= before.update(i as int, (key@, value)));
        },
        None => {
            pairs.push((key.to_string(), value));
            assert(pair_views(pairs@) =~= before.push((key@, value)));
        },
    }
}

/// How many of the first `n` evaluations are of each kind, by the label of
/// the kind.
pub open spec fn kinds_counted(evaluations: Seq<EvaluationView>, n: int) -> Seq<(Seq<char>, usize)>
    decreases n,
{
    if n <= 0 {
        Seq::empty()
    } else {
        let before = kinds_counted(evaluations, n - 1);
        let label = evaluations[n - 1].evaluation_type.label();
        assigned(before, label, (value_of(before, label, 0usize) + 1) as usize)
    }
}

/// No kind is counted more often than there are evaluations.
pub proof fn lemma_kinds_counted(evaluations: Seq<EvaluationView>, n: int)
    requires
        0 <= n,
    ensures
        forall|i: int|
            0 <= i < kinds_counted(evaluations, n).len() ==> (#[trigger] kinds_counted(
                evaluations,
                n,
            )[i]).1 <= n,
    decreases n,
{
    if n > 0 {
        lemma_kinds_counted(evaluations, n - 1);
        let before = kinds_counted(evaluations, n - 1);
        let label = evaluations[n - 1].evaluation_type.label();
        lemma_entry_index(before, label);
        let e = entry_index(before, label);
        if e < before.len() {
            assert(before[e].1 <= n - 1);
        }
    }
}

/// The weights of the first `n` evaluations that have one, by name.
pub open spec fn weights_of(evaluations: Seq<EvaluationView>, n: int) -> Seq<(Seq<char>, i32)>
    decreases n,
{
    if n <= 0 {
        Seq::empty()
    } else {
        let before = weights_of(evaluations, n - 1);
        match evaluations[n - 1].weight {
            Some(weight) => assigned(before, evaluations[n - 1].name, weight),
            None => before,
        }
    }
}

/// How many of the first `n` evaluations depend on anything.
pub open spec fn dependents(evaluations: Seq<EvaluationView>, n: int) -> int
    decreases n,
{
    if n <= 0 {
        0
    } else {
        dependents(evaluations, n - 1) + if dependencies_of(evaluations[n - 1]).len() > 0 {
            1int
        } else {
            0int
        }
    }
}

/// The `datetime(..)` expression of an evaluation: its left side where that
/// begins like one, else its right side where that is a string and begins
/// like one.
pub open spec fn datetime_expression_of(e: EvaluationView) -> Option<Seq<char>> {
    if e.left is Some && stands_at(e.left->0, 0, "datetime("@) {
        e.left
    } else if right_text(e) is Some && stands_at(right_text(e)->0, 0, "datetime("@) {
        right_text(e)
    } else {
        None
    }
}

/// The `datetime(..)` expressions of the first `n` evaluations.
pub open spec fn datetime_expressions_of(evaluations: Seq<EvaluationView>, n: int) -> Seq<
    Seq<char>,
>
    decreases n,
{
    if n <= 0 {
        Seq::empty()
    } else {
        let before = datetime_expressions_of(evaluations, n - 1);
        match datetime_expression_of(evaluations[n - 1]) {
            Some(expression) => before.push(expression),
            None => before,
        }
    }
}

/// What one evaluation adds to the complexity of a model, in tenths: ten
/// for itself, five for each operand, three for each reference in its left
/// and in its right side, five for a `datetime(..)` expression.
pub open spec fn evaluation_tenths(e: EvaluationView) -> int {
    10 + 5 * (match e.operands {
        Some(operands) => operands.len() as int,
        None => 0,
    }) + 3 * (match e.left {
        Some(left) => references_of(left).len() as int,
        None => 0,
    }) + 3 * (match right_text(e) {
        Some(right) => references_of(right).len() as int,
        None => 0,
    }) + if datetime_expression_of(e) is Some {
        5int
    } else {
        0int
    }
}

/// The complexity of the first `n` evaluations, in tenths.
pub open spec fn complexity_tenths(evaluations: Seq<EvaluationView>, n: int) -> int
    decreases n,
{
    if n <= 0 {
        0
    } else {
        complexity_tenths(evaluations, n - 1) + evaluation_tenths(evaluations[n - 1])
    }
}

/// The complexity is never negative.
pub proof fn lemma_complexity_grows(evaluations: Seq<EvaluationView>, n: int)
    ensures
        0 <= complexity_tenths(evaluations, n),
    decreases n,
{
    if n > 0 {
        lemma_complexity_grows(evaluations, n - 1);
    }
}

/// One of the types of action that are recommended.
pub open spec fn recommended_action(action_type: Seq<char>) -> bool {
    action_type == "flag_transaction"@ || action_type == "block_transaction"@ || action_type
        == "send_alert"@
}

/// The warning for a model with more than ten evaluations.
pub open spec fn size_warning(count: nat) -> WarningView {
    WarningView {
        severity: WarningSeverity::Medium,
        category: WarningCategory::Complexity,
        message: "High number of evaluations may impact maintainability"@,
        context: "Total evaluations: "@ + decimal_digits(count),
    }
}

/// The warning for an action whose type is none of those recommended.
pub open spec fn action_warning(action_type: Seq<char>) -> WarningView {
    WarningView {
        severity: WarningSeverity::Medium,
        category: WarningCategory::BestPractice,
        message: "While user defined action types are accepted. We recommend that you use one the following action types 'flag_transaction', 'block_transaction' or 'send_alert'"@,
        context: "Action type: '"@ + action_type + "'"@,
    }
}

/// The warnings for the first `n` actions.
pub open spec fn action_warnings(actions: Seq<ActionView>, n: int) -> Seq<WarningView>
    decreases n,
{
    if n <= 0 {
        Seq::empty()
    } else {
        let before = action_warnings(actions, n - 1);
        if recommended_action(actions[n - 1].action_type) {
            before
        } else {
            before.push(action_warning(actions[n - 1].action_type))
        }
    }
}

/// The warnings for a model.
pub open spec fn warnings_of(m: ModelView) -> Seq<WarningView> {
    (if m.evaluations.len() > 10 {
        seq![size_warning(m.evaluations.len())]
    } else {
        Seq::empty()
    }) + action_warnings(m.actions, m.actions.len() as int)
}

/// Whether one of the first `n` evaluations has a weight of four or more.
pub open spec fn has_heavy_weight(evaluations: Seq<EvaluationView>, n: int) -> bool {
    exists|i: int|
        0 <= i < n && i < evaluations.len() && (#[trigger] evaluations[i]).weight is Some
            && evaluations[i].weight->0 >= 4
}

/// The suggestions for a model.
pub open spec fn suggestions_of(m: ModelView) -> Seq<Seq<char>> {
    (if m.description is None {
        seq!["Consider adding a description to improve rule documentation"@]
    } else {
        Seq::empty()
    }) + if has_heavy_weight(m.evaluations, m.evaluations.len() as int) {
        seq!["Consider normalizing evaluation weights to improve rule balance"@]
    } else {
        Seq::empty()
    }
}

/// The names that an evaluation depends on: its operands and the references
/// of its left and right side.
pub fn collect_evaluation_dependencies(eval: &Evaluation) -> (deps: Vec<String>)
    ensures
        views(deps@) == dependencies_of(eval@),
{
    let mut deps: Vec<String> = Vec::new();
    assert(views(deps@) =~= Seq::<Seq<char>>::empty());
    if let Some(operands) = &eval.operands {
        deps = clone_strings(operands);
    }
    let ghost own = views(deps@);
    if let Some(left) = &eval.left {
        append_strings(&mut deps, RuleAnalyzer::extract_references(left.as_str()));
    }
    if let Some(right) = right_string(eval) {
        append_strings(&mut deps, RuleAnalyzer::extract_references(right.as_str()));
    }
    assert(views(deps@) =~= dependencies_of(eval@));
    deps
}

/// The `datetime(..)` expression of an evaluation, if it has one.
pub fn find_datetime_expression(eval: &Evaluation) -> (r: Option<String>)
    ensures
        view_opt(r) == datetime_expression_of(eval@),
{
    if let Some(left) = &eval.left {
        if is_datetime_call(left.as_str()) {
            return Some(left.clone());
        }
    }
    if let Some(right) = right_string(eval) {
        if is_datetime_call(right.as_str()) {
            return Some(right.clone());
        }
    }
    None
}

/// What one evaluation adds to the complexity of a model, in tenths.
fn evaluation_score(eval: &Evaluation) -> (tenths: u128)
    ensures
        tenths == evaluation_tenths(eval@),
        tenths <= 0x1000_0000_0000_0000_0000,
{
    let mut tenths: u128 = 10;
    if let Some(operands) = &eval.operands {
        assert(views(operands@).len() == operands@.len());
        tenths = tenths + 5 * (operands.len() as u128);
    }
    if let Some(left) = &eval.left {
        let refs = RuleAnalyzer::extract_references(left.as_str());
        assert(views(refs@).len() == refs@.len());
        tenths = tenths + 3 * (refs.len() as u128);
    }
    if let Some(right) = right_string(eval) {
        let refs = RuleAnalyzer::extract_references(right.as_str());
        assert(views(refs@).len() == refs@.len());
        tenths = tenths + 3 * (refs.len() as u128);
    }
    if find_datetime_expression(eval).is_some() {
        tenths = tenths + 5;
    }
    tenths
}

/// The complexity of a model, in tenths, or the greatest number of its type
/// where the complexity is greater than that.
pub fn calculate_complexity_score(model: &LrolModel) -> (tenths: u64)
    ensures
        tenths == smaller(
            complexity_tenths(model@.evaluations, model@.evaluations.len() as int),
            u64::MAX as int,
        ),
{
    let cap: u128 = 0xffff_ffff_ffff_ffff;
    let mut total: u128 = 0;
    let mut i: usize = 0;
    while i < model.evaluations.len()
        invariant
            i <= model.evaluations@.len(),
            cap == u64::MAX,
            total == smaller(complexity_tenths(model@.evaluations, i as int), cap as int),
        decreases model.evaluations@.len() - i,
    {
        proof {
            lemma_complexity_grows(model@.evaluations, i as int);
            assert(views(model.evaluations@)[i as int] == model.evaluations@[i as int]@);
        }
        let step = evaluation_score(&model.evaluations[i]);
        let sum: u128 = total + step;
        total = if sum > cap {
            cap
        } else {
            sum
        };
        i += 1;
    }
    assert(views(model.evaluations@).len() == model.evaluations@.len());
    total as u64
}

/// Whether a type of action is one of those recommended.
pub fn is_recommended_action(action_type: &str) -> (b: bool)
    ensures
        b == recommended_action(action_type@),
{
    same_text(action_type, "flag_transaction") || same_text(action_type, "block_transaction")
        || same_text(action_type, "send_alert")
}

/// Adds to `warnings` what the author of the model might reconsider: more
/// than ten evaluations, and each action whose type is none of those
/// recommended.
pub fn check_for_warnings(model: &LrolModel, warnings: &mut Vec<AnalysisWarning>)
    ensures
        views(final(warnings)@) == views(old(warnings)@) + warnings_of(model@),
{
    let ghost before = views(warnings@);
    assert(views(model.evaluations@).len() == model.evaluations@.len());
    if model.evaluations.len() > 10 {
        let mut context = "Total evaluations: ".to_string();
        push_decimal(&mut context, model.evaluations.len());
        let warning = AnalysisWarning {
            severity: WarningSeverity::Medium,
            category: WarningCategory::Complexity,
            message: "High number of evaluations may impact maintainability".to_string(),
            context,
        };
        warnings.push(warning);
        assert(views(warnings@) =~= before + seq![size_warning(model@.evaluations.len())]);
    } else {
        assert(views(warnings@) =~= before + Seq::<WarningView>::empty());
    }
    let ghost head = views(warnings@);
    let mut i: usize = 0;
    assert(head + action_warnings(model@.actions, 0) =~= head);
    while i < model.actions.len()
        invariant
            i <= model.actions@.len(),
            views(warnings@) == head + action_warnings(model@.actions, i as int),
        decreases model.actions@.len() - i,
    {
        let action = &model.actions[i];
        assert(views(model.actions@)[i as int] == action@);
        if !is_recommended_action(action.action_type.as_str()) {
            let mut context = "Action type: '".to_string();
            context.append(action.action_type.as_str());
            context.append("'");
            let ghost so_far = views(warnings@);
            warnings.push(
                AnalysisWarning {
                    severity: WarningSeverity::Medium,
                    category: WarningCategory::BestPractice,
                    message: "While user defined action types are accepted. We recommend that you use one the following action types 'flag_transaction', 'block_transaction' or 'send_alert'".to_string(),
                    context,
                },
            );
            assert(views(warnings@) =~= so_far.push(action_warning(action@.action_type)));
        }
        assert(views(warnings@) =~= head + action_warnings(model@.actions, i + 1));
        i += 1;
    }
    assert(views(model.actions@).len() == model.actions@.len());
    assert(views(warnings@) =~= before + warnings_of(model@));
}

/// Adds to `suggestions` what might improve the model: a description where
/// it has none, and balanced weights where one is four or more.
pub fn generate_suggestions(model: &LrolModel, suggestions: &mut Vec<String>)
    ensures
        views(final(suggestions)@) == views(old(suggestions)@) + suggestions_of(model@),
{
    let ghost before = views(suggestions@);
    if model.description.is_none() {
        suggestions.push("Consider adding a description to improve rule documentation".to_string());
        assert(views(suggestions@) =~= before.push(
            "Consider adding a description to improve rule documentation"@,
        ));
    }
    let ghost head = views(suggestions@);
    let mut heavy = false;
    let mut i: usize = 0;
    while i < model.evaluations.len()
        invariant
            i <= model.evaluations@.len(),
            heavy == has_heavy_weight(model@.evaluations, i as int),
        decreases model.evaluations@.len() - i,
    {
        assert(views(model.evaluations@)[i as int] == model.evaluations@[i as int]@);
        let ghost evaluations = model@.evaluations;
        if let Some(weight) = model.evaluations[i].weight {
            if weight >= 4 {
                heavy = true;
            }
        }
        proof {
            if has_heavy_weight(evaluations, i + 1) && !heavy {
                let k = choose|k: int|
                    0 <= k < i + 1 && k < evaluations.len() && (#[trigger] evaluations[k]).weight
                        is Some && evaluations[k].weight->0 >= 4;
                assert(k < i);
                assert(has_heavy_weight(evaluations, i as int));
            }
            if heavy {
                if has_heavy_weight(evaluations, i as int) {
                    let k = choose|k: int|
                        0 <= k < i && k < evaluations.len() && (
                        #[trigger] evaluations[k]).weight is Some && evaluations[k].weight->0
                            >= 4;
                    assert(evaluations[k].weight is Some);
                } else {
                    assert(evaluations[i as int].weight is Some);
                }
            }
        }
        i += 1;
    }
    assert(views(model.evaluations@).len() == model.evaluations@.len());
    if heavy {
        let ghost so_far = views(suggestions@);
        suggestions.push(
            "Consider normalizing evaluation weights to improve rule balance".to_string(),
        );
        assert(views(suggestions@) =~= so_far.push(
            "Consider normalizing evaluation weights to improve rule balance"@,
        ));
    }
    assert(views(suggestions@) =~= before + suggestions_of(model@));
}

/// What a report says of a model.
pub open spec fn describes(report: AnalysisReport, m: ModelView, file_path: Seq<char>) -> bool {
    let n = m.evaluations.len() as int;
    &&& report.file_path@ == file_path
    &&& report.summary.total_evaluations == n
    &&& pair_views(report.summary.evaluation_types@) == kinds_counted(m.evaluations, n)
    &&& report.summary.max_evaluation_depth == 0
    &&& report.summary.dependency_count == dependents(m.evaluations, n)
    &&& report.summary.complexity_tenths == smaller(
        complexity_tenths(m.evaluations, n),
        u64::MAX as int,
    )
    &&& report.details.evaluation_dependencies@ == graph_of(m.evaluations, n)
    &&& report.details.evaluation_dependencies.wf()
    &&& views(report.details.datetime_expressions@) == datetime_expressions_of(m.evaluations, n)
    &&& report.details.reference_chains@.len() == 0
    &&& pair_views(report.details.evaluation_weights@) == weights_of(m.evaluations, n)
    &&& views(report.warnings@) == warnings_of(m)
    &&& views(report.suggestions@) == suggestions_of(m)
}

/// Describes a model: its numbers, its details, and what its author might
/// reconsider.
pub fn analyze_model(model: &LrolModel, file_path: &str) -> (report: AnalysisReport)
    ensures
        describes(report, model@, file_path@),
{
    let ghost evaluations = model@.evaluations;
    let mut kinds: Vec<(String, usize)> = Vec::new();
    let mut weights: Vec<(String, i32)> = Vec::new();
    let mut dependencies = DependencyGraph::new();
    let mut dependency_count: usize = 0;
    let mut expressions: Vec<String> = Vec::new();
    proof {
        assert(pair_views(kinds@) =~= kinds_counted(evaluations, 0));
        assert(pair_views(weights@) =~= weights_of(evaluations, 0));
        assert(views(expressions@) =~= datetime_expressions_of(evaluations, 0));
        assert(views(model.evaluations@).len() == model.evaluations@.len());
    }
    let mut i: usize = 0;
    while i < model.evaluations.len()
        invariant
            i <= model.evaluations@.len(),
            evaluations == model@.evaluations,
            evaluations.len() == model.evaluations@.len(),
            pair_views(kinds@) == kinds_counted(evaluations, i as int),
            pair_views(weights@) == weights_of(evaluations, i as int),
            dependencies@ == graph_of(evaluations, i as int),
            dependencies.wf(),
            dependency_count == dependents(evaluations, i as int),
            dependency_count <= i,
            views(expressions@) == datetime_expressions_of(evaluations, i as int),
        decreases model.evaluations@.len() - i,
    {
        let eval = &model.evaluations[i];
        assert(evaluations[i as int] == eval@);
        let label = eval.evaluation_type.label_text();
        let count = match find_entry(&kinds, label) {
            Some(at) => {
                proof {
                    lemma_kinds_counted(evaluations, i as int);
                    assert(pair_views(kinds@)[at as int].1 == kinds@[at as int].1);
                }
                kinds[at].1
            },
            None => 0,
        };
        assign(&mut kinds, label, count + 1);
        if let Some(weight) = eval.weight {
            assign(&mut weights, eval.name.as_str(), weight);
        }
        let deps = collect_evaluation_dependencies(eval);
        if deps.len() > 0 {
            assert(views(deps@).len() == deps@.len());
            dependencies.insert(eval.name.clone(), deps);
            dependency_count += 1;
        } else {
            assert(views(deps@).len() == deps@.len());
        }
        if let Some(expression) = find_datetime_expression(eval) {
            let ghost before = views(expressions@);
            expressions.push(expression);
            assert(views(expressions@) =~= before.push(expression@));
        }
        i += 1;
    }
    let mut warnings: Vec<AnalysisWarning> = Vec::new();
    let mut suggestions: Vec<String> = Vec::new();
    proof {
        assert(views(warnings@) =~= Seq::<WarningView>::empty());
        assert(views(suggestions@) =~= Seq::<Seq<char>>::empty());
    }
    check_for_warnings(model, &mut warnings);
    generate_suggestions(model, &mut suggestions);
    proof {
        assert(views(warnings@) =~= warnings_of(model@));
        assert(views(suggestions@) =~= suggestions_of(model@));
    }
    AnalysisReport {
        file_path: file_path.to_string(),
        summary: AnalysisSummary {
            total_evaluations: model.evaluations.len(),
            evaluation_types: kinds,
            max_evaluation_depth: 0,
            dependency_count,
            complexity_tenths: calculate_complexity_score(model),
        },
        details: AnalysisDetails {
            evaluation_dependencies: dependencies,
            datetime_expressions: expressions,
            reference_chains: Vec::new(),
            evaluation_weights: weights,
        },
        warnings,
        suggestions,
    }
}

} // verus!
