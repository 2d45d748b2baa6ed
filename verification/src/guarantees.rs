//! What holds of every analysis, stated over the findings that the analyzer
//! returns for a model and proved from their definition.

use crate::analyzer::{
    analysis_errors, cycle_errors, declared, declared_names, dependency_graph_of,
    duplicate_errors, evaluation_errors, kind_errors, lemma_first_names, named_before,
    operand_errors, operands_errors, reference_errors, right_text, structure_errors,
    text_reference_errors, datetime_errors, weight_errors,
};
use crate::diagnostics::AnalyzerErrorView;
use crate::expression::references_of;
use crate::graph::acyclic;
use crate::search::{cycle_report, first_cycle, lemma_search_is_right};
use crate::parser::{well_formed, ModelView};
use crate::schema::{
    action_errors, actions_errors, answers_allowed, decided_answers, evaluation_schema_errors,
    evaluations_schema_errors, finding_if, lemma_decided_answers, metadata_errors, model_errors,
    schema_errors, timestamps_decided, weight_in_range,
};
use crate::types::{EvaluationType, EvaluationView};
use vstd::prelude::*;

verus! {

/// How often `finding` occurs among `findings`.
pub open spec fn count_of(findings: Seq<AnalyzerErrorView>, finding: AnalyzerErrorView) -> nat
    decreases findings.len(),
{
    if findings.len() == 0 {
        0
    } else {
        count_of(findings.drop_last(), finding) + if findings.last() == finding {
            1nat
        } else {
            0nat
        }
    }
}

/// How many of the first `n` evaluations have the name `name`.
pub open spec fn occurrences(evaluations: Seq<EvaluationView>, n: int, name: Seq<char>) -> nat
    decreases n,
{
    if n <= 0 {
        0
    } else {
        occurrences(evaluations, n - 1, name) + if evaluations[n - 1].name == name {
            1nat
        } else {
            0nat
        }
    }
}

/// A finding of a pass that looks at one thing at a time: neither a
/// duplicate name nor a cycle.
pub open spec fn plain(finding: AnalyzerErrorView) -> bool {
    !(finding is DuplicateEvaluationName) && !(finding is CircularDependency)
}

/// All findings are plain.
pub open spec fn all_plain(findings: Seq<AnalyzerErrorView>) -> bool {
    forall|i: int| 0 <= i < findings.len() ==> plain(#[trigger] findings[i])
}

/// What occurs in two lists occurs as often as in both together.
pub proof fn lemma_count_concat(
    a: Seq<AnalyzerErrorView>,
    b: Seq<AnalyzerErrorView>,
    finding: AnalyzerErrorView,
)
    ensures
        count_of(a + b, finding) == count_of(a, finding) + count_of(b, finding),
    decreases b.len(),
{
    if b.len() == 0 {
        assert(a + b =~= a);
    } else {
        assert((a + b).drop_last() =~= a + b.drop_last());
        assert((a + b).last() == b.last());
        lemma_count_concat(a, b.drop_last(), finding);
    }
}

/// A list of one finding holds that finding once and no other.
pub proof fn lemma_count_single(only: AnalyzerErrorView, finding: AnalyzerErrorView)
    ensures
        count_of(seq![only], finding) == if only == finding {
            1nat
        } else {
            0nat
        },
{
    let s = seq![only];
    assert(s.drop_last() =~= Seq::<AnalyzerErrorView>::empty());
    assert(s.last() == only);
    assert(count_of(s.drop_last(), finding) == 0);
}

/// What is not in a list occurs there no times.
pub proof fn lemma_count_absent(findings: Seq<AnalyzerErrorView>, finding: AnalyzerErrorView)
    requires
        forall|i: int| 0 <= i < findings.len() ==> findings[i] != finding,
    ensures
        count_of(findings, finding) == 0,
    decreases findings.len(),
{
    if findings.len() > 0 {
        assert forall|i: int| 0 <= i < findings.drop_last().len() implies findings.drop_last()[i]
            != finding by {
            assert(findings.drop_last()[i] == findings[i]);
        }
        lemma_count_absent(findings.drop_last(), finding);
    }
}

/// Two lists of plain findings make a list of plain findings.
pub proof fn lemma_plain_concat(a: Seq<AnalyzerErrorView>, b: Seq<AnalyzerErrorView>)
    requires
        all_plain(a),
        all_plain(b),
    ensures
        all_plain(a + b),
{
    assert forall|i: int| 0 <= i < (a + b).len() implies plain(#[trigger] (a + b)[i]) by {
        if i < a.len() {
            assert((a + b)[i] == a[i]);
        } else {
            assert((a + b)[i] == b[i - a.len()]);
        }
    }
}

/// What is in one of two lists is in both together, and nothing else is.
pub proof fn lemma_contains_concat(
    a: Seq<AnalyzerErrorView>,
    b: Seq<AnalyzerErrorView>,
    finding: AnalyzerErrorView,
)
    ensures
        (a + b).contains(finding) <==> a.contains(finding) || b.contains(finding),
{
    if a.contains(finding) {
        let i = choose|i: int| 0 <= i < a.len() && a[i] == finding;
        assert((a + b)[i] == finding);
    }
    if b.contains(finding) {
        let i = choose|i: int| 0 <= i < b.len() && b[i] == finding;
        assert((a + b)[a.len() + i] == finding);
    }
    if (a + b).contains(finding) {
        let i = choose|i: int| 0 <= i < (a + b).len() && (a + b)[i] == finding;
        if i < a.len() {
            assert(a[i] == finding);
        } else {
            assert(b[i - a.len()] == finding);
        }
    }
}

proof fn lemma_schema_plain(m: ModelView, created_ok: bool, updated_ok: bool)
    ensures
        all_plain(schema_errors(m, created_ok, updated_ok)),
{
    assert(all_plain(model_errors(m)));
    lemma_evaluations_schema_plain(m.evaluations, m.evaluations.len() as int);
    lemma_actions_plain(m.actions, m.actions.len() as int);
    assert(all_plain(metadata_errors(m.metadata, created_ok, updated_ok)));
    let a = model_errors(m);
    let b = evaluations_schema_errors(m.evaluations, m.evaluations.len() as int);
    let c = actions_errors(m.actions, m.actions.len() as int);
    let d = metadata_errors(m.metadata, created_ok, updated_ok);
    lemma_plain_concat(a, b);
    lemma_plain_concat(a + b, c);
    lemma_plain_concat(a + b + c, d);
}

proof fn lemma_evaluations_schema_plain(evaluations: Seq<EvaluationView>, n: int)
    ensures
        all_plain(evaluations_schema_errors(evaluations, n)),
    decreases n,
{
    if n > 0 {
        lemma_evaluations_schema_plain(evaluations, n - 1);
        assert(all_plain(evaluation_schema_errors(evaluations[n - 1])));
        lemma_plain_concat(
            evaluations_schema_errors(evaluations, n - 1),
            evaluation_schema_errors(evaluations[n - 1]),
        );
    }
}

proof fn lemma_actions_plain(actions: Seq<crate::types::ActionView>, n: int)
    ensures
        all_plain(actions_errors(actions, n)),
    decreases n,
{
    if n > 0 {
        lemma_actions_plain(actions, n - 1);
        assert(all_plain(action_errors(actions[n - 1])));
        lemma_plain_concat(actions_errors(actions, n - 1), action_errors(actions[n - 1]));
    }
}

proof fn lemma_references_plain(
    evaluation_name: Seq<char>,
    field_name: Seq<char>,
    references: Seq<Seq<char>>,
    n: int,
    names: Seq<Seq<char>>,
)
    ensures
        all_plain(reference_errors(evaluation_name, field_name, references, n, names)),
    decreases n,
{
    if n > 0 {
        lemma_references_plain(evaluation_name, field_name, references, n - 1, names);
        let last = finding_if(
            !names.contains(references[n - 1]),
            AnalyzerErrorView::InvalidStringReference {
                evaluation_name,
                field_name,
                reference: references[n - 1],
            },
        );
        assert(all_plain(last));
        lemma_plain_concat(
            reference_errors(evaluation_name, field_name, references, n - 1, names),
            last,
        );
    }
}

proof fn lemma_operands_plain(
    evaluation_name: Seq<char>,
    operands: Seq<Seq<char>>,
    n: int,
    names: Seq<Seq<char>>,
)
    ensures
        all_plain(operand_errors(evaluation_name, operands, n, names)),
    decreases n,
{
    if n > 0 {
        lemma_operands_plain(evaluation_name, operands, n - 1, names);
        let last = finding_if(
            !names.contains(operands[n - 1]),
            AnalyzerErrorView::MissingOperandReference {
                evaluation_name,
                missing_operand: operands[n - 1],
            },
        );
        assert(all_plain(last));
        lemma_plain_concat(operand_errors(evaluation_name, operands, n - 1, names), last);
    }
}

proof fn lemma_text_references_plain(
    evaluation_name: Seq<char>,
    field_name: Seq<char>,
    text: Option<Seq<char>>,
    names: Seq<Seq<char>>,
)
    ensures
        all_plain(text_reference_errors(evaluation_name, field_name, text, names)),
{
    if let Some(t) = text {
        lemma_references_plain(
            evaluation_name,
            field_name,
            references_of(t),
            references_of(t).len() as int,
            names,
        );
    }
}

proof fn lemma_evaluation_plain(e: EvaluationView, names: Seq<Seq<char>>)
    ensures
        all_plain(evaluation_errors(e, names)),
{
    let a = datetime_errors(e.name, "left"@, e.left);
    let b = datetime_errors(e.name, "right"@, right_text(e));
    let c = text_reference_errors(e.name, "left"@, e.left, names);
    let d = text_reference_errors(e.name, "right"@, right_text(e), names);
    let w = weight_errors(e);
    let k = kind_errors(e);
    let o = operands_errors(e, names);
    assert(all_plain(a));
    assert(all_plain(b));
    lemma_text_references_plain(e.name, "left"@, e.left, names);
    lemma_text_references_plain(e.name, "right"@, right_text(e), names);
    assert(all_plain(w));
    assert(all_plain(k));
    if let Some(operands) = e.operands {
        lemma_operands_plain(e.name, operands, operands.len() as int, names);
    }
    lemma_plain_concat(a, b);
    lemma_plain_concat(a + b, c);
    lemma_plain_concat(a + b + c, d);
    lemma_plain_concat(a + b + c + d, w);
    lemma_plain_concat(a + b + c + d + w, k);
    lemma_plain_concat(a + b + c + d + w + k, o);
}

proof fn lemma_structure_plain(evaluations: Seq<EvaluationView>, n: int, names: Seq<Seq<char>>)
    ensures
        all_plain(structure_errors(evaluations, n, names)),
    decreases n,
{
    if n > 0 {
        lemma_structure_plain(evaluations, n - 1, names);
        lemma_evaluation_plain(evaluations[n - 1], names);
        lemma_plain_concat(
            structure_errors(evaluations, n - 1, names),
            evaluation_errors(evaluations[n - 1], names),
        );
    }
}

proof fn lemma_plain_count(findings: Seq<AnalyzerErrorView>, finding: AnalyzerErrorView)
    requires
        all_plain(findings),
        !plain(finding),
    ensures
        count_of(findings, finding) == 0,
        !findings.contains(finding),
{
    assert forall|i: int| 0 <= i < findings.len() implies findings[i] != finding by {
        assert(plain(findings[i]));
    }
    lemma_count_absent(findings, finding);
}

proof fn lemma_named_before(evaluations: Seq<EvaluationView>, n: int, name: Seq<char>)
    requires
        0 <= n <= evaluations.len(),
    ensures
        named_before(evaluations, n, name) <==> occurrences(evaluations, n, name) > 0,
    decreases n,
{
    if n > 0 {
        lemma_named_before(evaluations, n - 1, name);
        if named_before(evaluations, n, name) {
            let i = choose|i: int|
                0 <= i < n && i < evaluations.len() && (#[trigger] evaluations[i]).name == name;
            if i < n - 1 {
                assert(named_before(evaluations, n - 1, name));
            }
        }
        if occurrences(evaluations, n, name) > 0 {
            if evaluations[n - 1].name == name {
                assert(named_before(evaluations, n, name));
            } else {
                let i = choose|i: int|
                    0 <= i < n - 1 && i < evaluations.len() && (#[trigger] evaluations[i]).name
                        == name;
                assert(evaluations[i].name == name);
            }
        }
    }
}

proof fn lemma_duplicate_count(evaluations: Seq<EvaluationView>, n: int, name: Seq<char>)
    requires
        0 <= n <= evaluations.len(),
    ensures
        count_of(
            duplicate_errors(evaluations, n),
            AnalyzerErrorView::DuplicateEvaluationName(name),
        ) == if occurrences(evaluations, n, name) == 0 {
            0
        } else {
            occurrences(evaluations, n, name) - 1
        },
        forall|i: int|
            0 <= i < duplicate_errors(evaluations, n).len() ==> (#[trigger] duplicate_errors(
                evaluations,
                n,
            )[i]) is DuplicateEvaluationName,
    decreases n,
{
    if n > 0 {
        let target = AnalyzerErrorView::DuplicateEvaluationName(name);
        let own = evaluations[n - 1].name;
        lemma_duplicate_count(evaluations, n - 1, name);
        lemma_named_before(evaluations, n - 1, name);
        lemma_named_before(evaluations, n - 1, own);
        let rest = duplicate_errors(evaluations, n - 1);
        let last = finding_if(
            named_before(evaluations, n - 1, own),
            AnalyzerErrorView::DuplicateEvaluationName(own),
        );
        lemma_count_concat(rest, last, target);
        if named_before(evaluations, n - 1, own) {
            lemma_count_single(AnalyzerErrorView::DuplicateEvaluationName(own), target);
            assert(last == seq![AnalyzerErrorView::DuplicateEvaluationName(own)]);
        } else {
            assert(count_of(last, target) == 0);
        }
        assert forall|i: int| 0 <= i < (rest + last).len() implies (#[trigger] (rest + last)[i])
            is DuplicateEvaluationName by {
            if i < rest.len() {
                assert((rest + last)[i] == rest[i]);
            } else {
                assert((rest + last)[i] == last[i - rest.len()]);
            }
        }
    }
}

/// The analyzer reports a duplicate name once for every evaluation that
/// bears a name that an earlier evaluation has: a name that occurs `k`
/// times, `k` at least one, is reported `k - 1` times, and a name that does
/// not occur is not reported. So where all names differ, no duplicate is
/// reported.
pub proof fn lemma_duplicates_are_counted(
    m: ModelView,
    created_ok: bool,
    updated_ok: bool,
    name: Seq<char>,
)
    ensures
        count_of(
            analysis_errors(m, created_ok, updated_ok),
            AnalyzerErrorView::DuplicateEvaluationName(name),
        ) == if occurrences(m.evaluations, m.evaluations.len() as int, name) == 0 {
            0
        } else {
            occurrences(m.evaluations, m.evaluations.len() as int, name) - 1
        },
{
    let target = AnalyzerErrorView::DuplicateEvaluationName(name);
    let n = m.evaluations.len() as int;
    let a = schema_errors(m, created_ok, updated_ok);
    let b = duplicate_errors(m.evaluations, n);
    let c = structure_errors(m.evaluations, n, declared_names(m.evaluations));
    let d = cycle_errors(dependency_graph_of(m));
    lemma_schema_plain(m, created_ok, updated_ok);
    lemma_structure_plain(m.evaluations, n, declared_names(m.evaluations));
    lemma_plain_count(a, target);
    lemma_plain_count(c, target);
    lemma_duplicate_count(m.evaluations, n, name);
    assert(count_of(d, target) == 0) by {
        if let Some((start, chain)) = first_cycle(dependency_graph_of(m)) {
            lemma_count_single(
                AnalyzerErrorView::CircularDependency {
                    evaluation_name: start,
                    dependency_chain: chain,
                },
                target,
            );
        }
    }
    lemma_count_concat(a, b, target);
    lemma_count_concat(a + b, c, target);
    lemma_count_concat(a + b + c, d, target);
}

/// What occurs in a list occurs there at least once.
pub proof fn lemma_count_present(findings: Seq<AnalyzerErrorView>, finding: AnalyzerErrorView)
    requires
        findings.contains(finding),
    ensures
        count_of(findings, finding) >= 1,
    decreases findings.len(),
{
    let i = choose|i: int| 0 <= i < findings.len() && findings[i] == finding;
    if i < findings.len() - 1 {
        assert(findings.drop_last()[i] == finding);
        lemma_count_present(findings.drop_last(), finding);
    }
}

/// Where the names of the first `n` evaluations differ, none occurs more
/// than once among them.
proof fn lemma_distinct_occurrences(evaluations: Seq<EvaluationView>, n: int, name: Seq<char>)
    requires
        0 <= n <= evaluations.len(),
        forall|i: int, j: int|
            0 <= i < j < evaluations.len() ==> (#[trigger] evaluations[i]).name != (
            #[trigger] evaluations[j]).name,
    ensures
        occurrences(evaluations, n, name) <= 1,
    decreases n,
{
    if n > 0 {
        lemma_distinct_occurrences(evaluations, n - 1, name);
        lemma_named_before(evaluations, n - 1, name);
        if evaluations[n - 1].name == name && occurrences(evaluations, n - 1, name) > 0 {
            let i = choose|i: int|
                0 <= i < n - 1 && i < evaluations.len() && (#[trigger] evaluations[i]).name
                    == name;
            assert(evaluations[i].name != evaluations[n - 1].name);
        }
    }
}

/// Where no two evaluations of a model have the same name, the analyzer
/// reports no duplicate name.
pub proof fn lemma_distinct_names_give_no_duplicates(
    m: ModelView,
    created_ok: bool,
    updated_ok: bool,
)
    requires
        forall|i: int, j: int|
            0 <= i < j < m.evaluations.len() ==> (#[trigger] m.evaluations[i]).name != (
            #[trigger] m.evaluations[j]).name,
    ensures
        forall|k: int|
            0 <= k < analysis_errors(m, created_ok, updated_ok).len() ==> !((
            #[trigger] analysis_errors(m, created_ok, updated_ok)[k]) is DuplicateEvaluationName),
{
    let all = analysis_errors(m, created_ok, updated_ok);
    assert forall|k: int| 0 <= k < all.len() implies !((#[trigger] all[k])
        is DuplicateEvaluationName) by {
        if all[k] is DuplicateEvaluationName {
            let name = all[k]->DuplicateEvaluationName_0;
            assert(all[k] == AnalyzerErrorView::DuplicateEvaluationName(name));
            assert(all.contains(all[k]));
            lemma_count_present(all, all[k]);
            lemma_duplicates_are_counted(m, created_ok, updated_ok, name);
            lemma_distinct_occurrences(m.evaluations, m.evaluations.len() as int, name);
        }
    }
}

/// The analyzer reports a cycle exactly where the search finds one: no
/// other pass reports a cycle, and the report of the search is the last
/// finding.
pub proof fn lemma_cycles_come_from_the_search(m: ModelView, created_ok: bool, updated_ok: bool)
    ensures
        (exists|i: int|
            0 <= i < analysis_errors(m, created_ok, updated_ok).len() && (
            #[trigger] analysis_errors(m, created_ok, updated_ok)[i]) is CircularDependency)
            <==> first_cycle(dependency_graph_of(m)) is Some,
        first_cycle(dependency_graph_of(m)) matches Some((start, chain)) ==> analysis_errors(
            m,
            created_ok,
            updated_ok,
        ).last() == (AnalyzerErrorView::CircularDependency {
            evaluation_name: start,
            dependency_chain: chain,
        }),
{
    let n = m.evaluations.len() as int;
    let a = schema_errors(m, created_ok, updated_ok);
    let b = duplicate_errors(m.evaluations, n);
    let c = structure_errors(m.evaluations, n, declared_names(m.evaluations));
    let d = cycle_errors(dependency_graph_of(m));
    let all = analysis_errors(m, created_ok, updated_ok);
    lemma_schema_plain(m, created_ok, updated_ok);
    lemma_structure_plain(m.evaluations, n, declared_names(m.evaluations));
    lemma_duplicate_count(m.evaluations, n, Seq::empty());
    assert forall|i: int| 0 <= i < (a + b + c).len() implies !((#[trigger] (a + b + c)[i])
        is CircularDependency) by {
        if i < a.len() {
            assert((a + b + c)[i] == a[i]);
            assert(plain(a[i]));
        } else if i < a.len() + b.len() {
            assert((a + b + c)[i] == b[i - a.len()]);
        } else {
            assert((a + b + c)[i] == c[i - a.len() - b.len()]);
            assert(plain(c[i - a.len() - b.len()]));
        }
    }
    if first_cycle(dependency_graph_of(m)) is Some {
        assert(all[(a + b + c).len() as int] == d[0]);
    } else {
        assert(all =~= a + b + c);
    }
    assert forall|i: int| 0 <= i < all.len() && (#[trigger] all[i]) is CircularDependency implies first_cycle(
        dependency_graph_of(m),
    ) is Some by {
        if i < (a + b + c).len() {
            assert(all[i] == (a + b + c)[i]);
        }
    }
}

/// The analyzer reports a cycle exactly where the dependency graph of the
/// model has one. What it reports is a cycle of that graph in which no name
/// occurs twice, and the evaluation that it names has dependencies that
/// lead to the cycle.
pub proof fn lemma_cycle_is_reported_where_there_is_one(
    m: ModelView,
    created_ok: bool,
    updated_ok: bool,
)
    ensures
        (exists|i: int|
            0 <= i < analysis_errors(m, created_ok, updated_ok).len() && (
            #[trigger] analysis_errors(m, created_ok, updated_ok)[i]) is CircularDependency)
            <==> !acyclic(dependency_graph_of(m)),
        forall|i: int|
            0 <= i < analysis_errors(m, created_ok, updated_ok).len() && (
            #[trigger] analysis_errors(m, created_ok, updated_ok)[i]) is CircularDependency
                ==> cycle_report(
                dependency_graph_of(m),
                analysis_errors(m, created_ok, updated_ok)[i],
            ),
{
    let g = dependency_graph_of(m);
    let all = analysis_errors(m, created_ok, updated_ok);
    lemma_search_is_right(g);
    lemma_cycles_come_from_the_search(m, created_ok, updated_ok);
    assert forall|i: int| 0 <= i < all.len() && (#[trigger] all[i]) is CircularDependency implies cycle_report(
        g,
        all[i],
    ) by {
        lemma_only_the_last_is_a_cycle(m, created_ok, updated_ok, i);
    }
}

/// A cycle among the findings of the analysis is the last of them.
proof fn lemma_only_the_last_is_a_cycle(m: ModelView, created_ok: bool, updated_ok: bool, i: int)
    requires
        0 <= i < analysis_errors(m, created_ok, updated_ok).len(),
        analysis_errors(m, created_ok, updated_ok)[i] is CircularDependency,
    ensures
        first_cycle(dependency_graph_of(m)) is Some,
        analysis_errors(m, created_ok, updated_ok)[i] == analysis_errors(
            m,
            created_ok,
            updated_ok,
        ).last(),
{
    let n = m.evaluations.len() as int;
    let a = schema_errors(m, created_ok, updated_ok);
    let b = duplicate_errors(m.evaluations, n);
    let c = structure_errors(m.evaluations, n, declared_names(m.evaluations));
    let d = cycle_errors(dependency_graph_of(m));
    let all = analysis_errors(m, created_ok, updated_ok);
    lemma_schema_plain(m, created_ok, updated_ok);
    lemma_structure_plain(m.evaluations, n, declared_names(m.evaluations));
    lemma_duplicate_count(m.evaluations, n, Seq::empty());
    if i < a.len() {
        assert(all[i] == a[i]);
        assert(plain(a[i]));
    } else if i < a.len() + b.len() {
        assert(all[i] == b[i - a.len()]);
    } else if i < a.len() + b.len() + c.len() {
        assert(all[i] == c[i - a.len() - b.len()]);
        assert(plain(c[i - a.len() - b.len()]));
    } else {
        assert(all[i] == d[i - a.len() - b.len() - c.len()]);
    }
}

proof fn lemma_operand_reported(
    evaluation_name: Seq<char>,
    operands: Seq<Seq<char>>,
    n: int,
    names: Seq<Seq<char>>,
    j: int,
)
    requires
        0 <= j < n <= operands.len(),
        !names.contains(operands[j]),
    ensures
        operand_errors(evaluation_name, operands, n, names).contains(
            AnalyzerErrorView::MissingOperandReference {
                evaluation_name,
                missing_operand: operands[j],
            },
        ),
    decreases n,
{
    let target = AnalyzerErrorView::MissingOperandReference {
        evaluation_name,
        missing_operand: operands[j],
    };
    let rest = operand_errors(evaluation_name, operands, n - 1, names);
    let last = finding_if(
        !names.contains(operands[n - 1]),
        AnalyzerErrorView::MissingOperandReference {
            evaluation_name,
            missing_operand: operands[n - 1],
        },
    );
    if j < n - 1 {
        lemma_operand_reported(evaluation_name, operands, n - 1, names, j);
    } else {
        assert(last[0] == target);
    }
    lemma_contains_concat(rest, last, target);
}

proof fn lemma_reference_reported(
    evaluation_name: Seq<char>,
    field_name: Seq<char>,
    references: Seq<Seq<char>>,
    n: int,
    names: Seq<Seq<char>>,
    j: int,
)
    requires
        0 <= j < n <= references.len(),
        !names.contains(references[j]),
    ensures
        reference_errors(evaluation_name, field_name, references, n, names).contains(
            AnalyzerErrorView::InvalidStringReference {
                evaluation_name,
                field_name,
                reference: references[j],
            },
        ),
    decreases n,
{
    let target = AnalyzerErrorView::InvalidStringReference {
        evaluation_name,
        field_name,
        reference: references[j],
    };
    let rest = reference_errors(evaluation_name, field_name, references, n - 1, names);
    let last = finding_if(
        !names.contains(references[n - 1]),
        AnalyzerErrorView::InvalidStringReference {
            evaluation_name,
            field_name,
            reference: references[n - 1],
        },
    );
    if j < n - 1 {
        lemma_reference_reported(evaluation_name, field_name, references, n - 1, names, j);
    } else {
        assert(last[0] == target);
    }
    lemma_contains_concat(rest, last, target);
}

/// What the structural pass finds in one evaluation is among the findings
/// of the analysis.
proof fn lemma_evaluation_findings_reported(
    m: ModelView,
    created_ok: bool,
    updated_ok: bool,
    i: int,
    finding: AnalyzerErrorView,
)
    requires
        0 <= i < m.evaluations.len(),
        evaluation_errors(m.evaluations[i], declared_names(m.evaluations)).contains(finding),
    ensures
        analysis_errors(m, created_ok, updated_ok).contains(finding),
{
    let n = m.evaluations.len() as int;
    let names = declared_names(m.evaluations);
    lemma_structure_holds(m.evaluations, n, names, i, finding);
    let a = schema_errors(m, created_ok, updated_ok);
    let b = duplicate_errors(m.evaluations, n);
    let c = structure_errors(m.evaluations, n, names);
    let d = cycle_errors(dependency_graph_of(m));
    lemma_contains_concat(a, b, finding);
    lemma_contains_concat(a + b, c, finding);
    lemma_contains_concat(a + b + c, d, finding);
}

proof fn lemma_structure_holds(
    evaluations: Seq<EvaluationView>,
    n: int,
    names: Seq<Seq<char>>,
    i: int,
    finding: AnalyzerErrorView,
)
    requires
        0 <= i < n <= evaluations.len(),
        evaluation_errors(evaluations[i], names).contains(finding),
    ensures
        structure_errors(evaluations, n, names).contains(finding),
    decreases n,
{
    if i < n - 1 {
        lemma_structure_holds(evaluations, n - 1, names, i, finding);
    }
    lemma_contains_concat(
        structure_errors(evaluations, n - 1, names),
        evaluation_errors(evaluations[n - 1], names),
        finding,
    );
}

/// Every operand of an evaluation is the name of an evaluation of the
/// model, or the analysis reports it as missing, with the evaluation that
/// holds it.
pub proof fn lemma_operands_resolve_or_are_reported(
    m: ModelView,
    created_ok: bool,
    updated_ok: bool,
    i: int,
    j: int,
)
    requires
        0 <= i < m.evaluations.len(),
        m.evaluations[i].operands is Some,
        0 <= j < m.evaluations[i].operands->0.len(),
    ensures
        declared(m.evaluations, m.evaluations[i].operands->0[j]) || analysis_errors(
            m,
            created_ok,
            updated_ok,
        ).contains(
            AnalyzerErrorView::MissingOperandReference {
                evaluation_name: m.evaluations[i].name,
                missing_operand: m.evaluations[i].operands->0[j],
            },
        ),
{
    let e = m.evaluations[i];
    let names = declared_names(m.evaluations);
    let operands = e.operands->0;
    lemma_first_names(m.evaluations, m.evaluations.len() as int, operands[j]);
    if !declared(m.evaluations, operands[j]) {
        let target = AnalyzerErrorView::MissingOperandReference {
            evaluation_name: e.name,
            missing_operand: operands[j],
        };
        lemma_operand_reported(e.name, operands, operands.len() as int, names, j);
        assert(operands_errors(e, names).contains(target));
        lemma_in_evaluation_errors(e, names, target);
        lemma_evaluation_findings_reported(m, created_ok, updated_ok, i, target);
    }
}

/// A finding of one of the parts of the structural pass is a finding of
/// the pass.
proof fn lemma_in_evaluation_errors(
    e: EvaluationView,
    names: Seq<Seq<char>>,
    finding: AnalyzerErrorView,
)
    requires
        datetime_errors(e.name, "left"@, e.left).contains(finding) || datetime_errors(
            e.name,
            "right"@,
            right_text(e),
        ).contains(finding) || text_reference_errors(e.name, "left"@, e.left, names).contains(
            finding,
        ) || text_reference_errors(e.name, "right"@, right_text(e), names).contains(finding)
            || weight_errors(e).contains(finding) || kind_errors(e).contains(finding)
            || operands_errors(e, names).contains(finding),
    ensures
        evaluation_errors(e, names).contains(finding),
{
    let a = datetime_errors(e.name, "left"@, e.left);
    let b = datetime_errors(e.name, "right"@, right_text(e));
    let c = text_reference_errors(e.name, "left"@, e.left, names);
    let d = text_reference_errors(e.name, "right"@, right_text(e), names);
    let w = weight_errors(e);
    let k = kind_errors(e);
    let o = operands_errors(e, names);
    lemma_contains_concat(a, b, finding);
    lemma_contains_concat(a + b, c, finding);
    lemma_contains_concat(a + b + c, d, finding);
    lemma_contains_concat(a + b + c + d, w, finding);
    lemma_contains_concat(a + b + c + d + w, k, finding);
    lemma_contains_concat(a + b + c + d + w + k, o, finding);
}

/// Every reference `@name` in the left side of an evaluation, and in its
/// right side where that is a string, names an evaluation of the model, or
/// the analysis reports it as invalid, with the evaluation and the side
/// that hold it.
pub proof fn lemma_references_resolve_or_are_reported(
    m: ModelView,
    created_ok: bool,
    updated_ok: bool,
    i: int,
    left: bool,
    j: int,
)
    requires
        0 <= i < m.evaluations.len(),
        left ==> m.evaluations[i].left is Some && 0 <= j < references_of(
            m.evaluations[i].left->0,
        ).len(),
        !left ==> right_text(m.evaluations[i]) is Some && 0 <= j < references_of(
            right_text(m.evaluations[i])->0,
        ).len(),
    ensures
        ({
            let e = m.evaluations[i];
            let text = if left {
                e.left->0
            } else {
                right_text(e)->0
            };
            let field_name = if left {
                "left"@
            } else {
                "right"@
            };
            declared(m.evaluations, references_of(text)[j]) || analysis_errors(
                m,
                created_ok,
                updated_ok,
            ).contains(
                AnalyzerErrorView::InvalidStringReference {
                    evaluation_name: e.name,
                    field_name,
                    reference: references_of(text)[j],
                },
            )
        }),
{
    let e = m.evaluations[i];
    let names = declared_names(m.evaluations);
    let text = if left {
        e.left->0
    } else {
        right_text(e)->0
    };
    let field_name = if left {
        "left"@
    } else {
        "right"@
    };
    let references = references_of(text);
    lemma_first_names(m.evaluations, m.evaluations.len() as int, references[j]);
    if !declared(m.evaluations, references[j]) {
        let target = AnalyzerErrorView::InvalidStringReference {
            evaluation_name: e.name,
            field_name,
            reference: references[j],
        };
        lemma_reference_reported(e.name, field_name, references, references.len() as int, names, j);
        lemma_in_evaluation_errors(e, names, target);
        lemma_evaluation_findings_reported(m, created_ok, updated_ok, i, target);
    }
}

/// A threshold outside the interval from zero to one is reported, with its
/// value.
pub proof fn lemma_threshold_is_checked(m: ModelView, created_ok: bool, updated_ok: bool)
    requires
        !m.threshold.in_unit_interval(),
    ensures
        analysis_errors(m, created_ok, updated_ok).contains(
            AnalyzerErrorView::InvalidThreshold {
                value: m.threshold,
                reason: "Threshold must be between 0 and 1"@,
            },
        ),
{
    let target = AnalyzerErrorView::InvalidThreshold {
        value: m.threshold,
        reason: "Threshold must be between 0 and 1"@,
    };
    let n = m.evaluations.len() as int;
    let first = finding_if(
        m.model_id.len() == 0,
        AnalyzerErrorView::MissingRequiredSchemaField { field: "model_id"@ },
    ) + finding_if(
        m.name.len() == 0,
        AnalyzerErrorView::MissingRequiredSchemaField { field: "name"@ },
    );
    let own = finding_if(!m.threshold.in_unit_interval(), target);
    assert(own[0] == target);
    let rest = finding_if(
        m.evaluations.len() == 0,
        AnalyzerErrorView::MissingRequiredSchemaField { field: "evaluations"@ },
    );
    let rest2 = finding_if(
        m.actions.len() == 0,
        AnalyzerErrorView::MissingRequiredSchemaField { field: "actions"@ },
    );
    lemma_contains_concat(first, own, target);
    lemma_contains_concat(first + own, rest, target);
    lemma_contains_concat(first + own + rest, rest2, target);
    assert(model_errors(m) == first + own + rest + rest2);
    let b = evaluations_schema_errors(m.evaluations, n);
    let c = actions_errors(m.actions, m.actions.len() as int);
    let d = metadata_errors(m.metadata, created_ok, updated_ok);
    lemma_contains_concat(model_errors(m), b, target);
    lemma_contains_concat(model_errors(m) + b, c, target);
    lemma_contains_concat(model_errors(m) + b + c, d, target);
    lemma_in_analysis(m, created_ok, updated_ok, target);
}

/// A finding of the schema pass or of the structural pass is a finding of
/// the analysis.
proof fn lemma_in_analysis(
    m: ModelView,
    created_ok: bool,
    updated_ok: bool,
    finding: AnalyzerErrorView,
)
    requires
        schema_errors(m, created_ok, updated_ok).contains(finding) || structure_errors(
            m.evaluations,
            m.evaluations.len() as int,
            declared_names(m.evaluations),
        ).contains(finding),
    ensures
        analysis_errors(m, created_ok, updated_ok).contains(finding),
{
    let n = m.evaluations.len() as int;
    let a = schema_errors(m, created_ok, updated_ok);
    let b = duplicate_errors(m.evaluations, n);
    let c = structure_errors(m.evaluations, n, declared_names(m.evaluations));
    let d = cycle_errors(dependency_graph_of(m));
    lemma_contains_concat(a, b, finding);
    lemma_contains_concat(a + b, c, finding);
    lemma_contains_concat(a + b + c, d, finding);
}

proof fn lemma_schema_holds(
    evaluations: Seq<EvaluationView>,
    n: int,
    i: int,
    finding: AnalyzerErrorView,
)
    requires
        0 <= i < n <= evaluations.len(),
        evaluation_schema_errors(evaluations[i]).contains(finding),
    ensures
        evaluations_schema_errors(evaluations, n).contains(finding),
    decreases n,
{
    if i < n - 1 {
        lemma_schema_holds(evaluations, n - 1, i, finding);
    }
    lemma_contains_concat(
        evaluations_schema_errors(evaluations, n - 1),
        evaluation_schema_errors(evaluations[n - 1]),
        finding,
    );
}

/// A weight outside `1..=5` is reported by the schema pass and by the
/// structural pass, each time with the evaluation and the weight.
pub proof fn lemma_weight_is_checked(m: ModelView, created_ok: bool, updated_ok: bool, i: int)
    requires
        0 <= i < m.evaluations.len(),
        m.evaluations[i].weight is Some,
        !weight_in_range(m.evaluations[i].weight->0),
    ensures
        analysis_errors(m, created_ok, updated_ok).contains(
            AnalyzerErrorView::InvalidWeightRange {
                evaluation_name: m.evaluations[i].name,
                weight: m.evaluations[i].weight->0,
            },
        ),
        analysis_errors(m, created_ok, updated_ok).contains(
            AnalyzerErrorView::InvalidWeight {
                evaluation_name: m.evaluations[i].name,
                weight: m.evaluations[i].weight->0,
            },
        ),
{
    let e = m.evaluations[i];
    let n = m.evaluations.len() as int;
    let names = declared_names(m.evaluations);
    let range = AnalyzerErrorView::InvalidWeightRange {
        evaluation_name: e.name,
        weight: e.weight->0,
    };
    let twice = AnalyzerErrorView::InvalidWeight { evaluation_name: e.name, weight: e.weight->0 };
    // the schema pass
    let own = finding_if(e.weight is Some && !weight_in_range(e.weight->0), range);
    assert(own[0] == range);
    let parts = evaluation_schema_errors(e);
    assert(parts.contains(range)) by {
        assert(parts[parts.len() - 1] == range);
    }
    lemma_schema_holds(m.evaluations, n, i, range);
    let a = model_errors(m);
    let b = evaluations_schema_errors(m.evaluations, n);
    let c = actions_errors(m.actions, m.actions.len() as int);
    let d = metadata_errors(m.metadata, created_ok, updated_ok);
    lemma_contains_concat(a, b, range);
    lemma_contains_concat(a + b, c, range);
    lemma_contains_concat(a + b + c, d, range);
    lemma_in_analysis(m, created_ok, updated_ok, range);
    // the structural pass
    assert(weight_errors(e)[0] == twice);
    lemma_in_evaluation_errors(e, names, twice);
    lemma_evaluation_findings_reported(m, created_ok, updated_ok, i, twice);
}

/// What the structural pass finds wrong with the kind of an evaluation that
/// the parser made: nothing, or operands that are empty. A field that is
/// missing and a logical operator that is not allowed do not get past the
/// parser.
pub proof fn lemma_parsed_kinds_are_sound(e: EvaluationView)
    requires
        well_formed(e),
    ensures
        kind_errors(e) == finding_if(
            e.evaluation_type == EvaluationType::Logical && e.operands->0.len() == 0,
            AnalyzerErrorView::EmptyOperands(e.name),
        ),
{
    assert(kind_errors(e) =~= finding_if(
        e.evaluation_type == EvaluationType::Logical && e.operands->0.len() == 0,
        AnalyzerErrorView::EmptyOperands(e.name),
    ));
}

/// Two analyses of one model report the same findings in the same order,
/// where neither timestamp is left to `dateparser`: each is missing, or ends
/// in a zone offset of 24 hours or more. `first` and `second` are what two
/// calls of `RuleAnalyzer::analyze` report for the model, as that function
/// describes its result.
pub proof fn lemma_analysis_repeats(
    m: ModelView,
    first: Seq<AnalyzerErrorView>,
    second: Seq<AnalyzerErrorView>,
)
    requires
        timestamps_decided(m),
        exists|created_ok: bool, updated_ok: bool|
            answers_allowed(m, created_ok, updated_ok) && first == #[trigger] analysis_errors(
                m,
                created_ok,
                updated_ok,
            ),
        exists|created_ok: bool, updated_ok: bool|
            answers_allowed(m, created_ok, updated_ok) && second == #[trigger] analysis_errors(
                m,
                created_ok,
                updated_ok,
            ),
    ensures
        first == second,
        first == analysis_errors(m, decided_answers(m).0, decided_answers(m).1),
{
    let (c1, u1) = choose|created_ok: bool, updated_ok: bool|
        answers_allowed(m, created_ok, updated_ok) && first == #[trigger] analysis_errors(
            m,
            created_ok,
            updated_ok,
        );
    let (c2, u2) = choose|created_ok: bool, updated_ok: bool|
        answers_allowed(m, created_ok, updated_ok) && second == #[trigger] analysis_errors(
            m,
            created_ok,
            updated_ok,
        );
    lemma_decided_answers(m, c1, u1);
    lemma_decided_answers(m, c2, u2);
}

} // verus!
