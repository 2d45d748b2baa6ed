//! Validation of the text of a rule document: the parser first and, where
//! it succeeds, the analyzer; and the report that holds what both found.

use crate::analyzer::{analysis_errors, lemma_analysis_without_timestamps, RuleAnalyzer};
use crate::diagnostics::{
    AnalyzerError, AnalyzerErrorView, ValidationError, ValidationErrorView,
};
use crate::error::{decimal_digits, push_decimal, ParserError, ParserErrorView};
use crate::parser::{parsed, LrolModel, LrolParser, ModelView};
use crate::schema::{answers_allowed, has_timestamps};
use crate::text::{range_is, to_chars, view_opt, views};
use vstd::prelude::*;

verus! {

/// What validation found in one document.
#[derive(Debug, Clone)]
pub struct ValidationReport {
    pub file_path: Option<String>,
    pub model: Option<LrolModel>,
    pub parser_error: Option<ParserError>,
    pub analyzer_errors: Vec<AnalyzerError>,
}

/// What a report stands for.
pub struct ReportView {
    pub file_path: Option<Seq<char>>,
    pub model: Option<ModelView>,
    pub parser_error: Option<ParserErrorView>,
    pub analyzer_errors: Seq<AnalyzerErrorView>,
}

impl View for ValidationReport {
    type V = ReportView;

    open spec fn view(&self) -> ReportView {
        ReportView {
            file_path: view_opt(self.file_path),
            model: view_opt(self.model),
            parser_error: view_opt(self.parser_error),
            analyzer_errors: views(self.analyzer_errors@),
        }
    }
}

/// The first `n` findings, one to a line, numbered from one.
pub open spec fn numbered_lines(findings: Seq<AnalyzerErrorView>, n: int) -> Seq<char>
    decreases n,
{
    if n <= 0 {
        Seq::empty()
    } else {
        numbered_lines(findings, n - 1) + decimal_digits(n as nat) + ". "@ + findings[n - 1].text()
            + "\n"@
    }
}

/// Whether `s` ends with `suffix`.
pub open spec fn ends_with(s: Seq<char>, suffix: Seq<char>) -> bool {
    s.len() >= suffix.len() && s.subrange(s.len() - suffix.len(), s.len() as int) == suffix
}

impl ReportView {
    /// A report without findings.
    pub open spec fn empty() -> ReportView {
        ReportView {
            file_path: None,
            model: None,
            parser_error: None,
            analyzer_errors: Seq::empty(),
        }
    }

    /// Neither the parser nor the analyzer found anything.
    pub open spec fn is_valid(self) -> bool {
        self.parser_error is None && self.analyzer_errors.len() == 0
    }

    /// The lines of the report: the file, the finding of the parser, the
    /// findings of the analyzer.
    pub open spec fn body(self) -> Seq<char> {
        (match self.file_path {
            Some(path) => "File: "@ + path + "\n"@,
            None => Seq::empty(),
        }) + (match self.parser_error {
            Some(e) => "Parser Error: "@ + e.text() + "\n"@,
            None => Seq::empty(),
        }) + (if self.analyzer_errors.len() > 0 {
            "Analyzer Errors:\n"@ + numbered_lines(
                self.analyzer_errors,
                self.analyzer_errors.len() as int,
            )
        } else {
            Seq::empty()
        })
    }

    /// The report as a text. Where there is nothing to report it says so.
    pub open spec fn text(self) -> Seq<char> {
        if self.body().len() == 0 || ends_with(self.body(), "File: {}\n"@) {
            self.body() + "No validation errors found."@
        } else {
            self.body()
        }
    }
}

/// Whether `report` is what validation gives for a document that parses to
/// `outcome`, where `created_ok` and `updated_ok` say whether the two
/// timestamps of its metadata are valid: the finding of the parser alone,
/// or the model and the findings of the analyzer.
pub open spec fn report_of(
    outcome: Result<ModelView, ParserErrorView>,
    created_ok: bool,
    updated_ok: bool,
    report: ReportView,
) -> bool {
    match outcome {
        Err(e) => report == (ReportView { parser_error: Some(e), ..ReportView::empty() }),
        Ok(m) => {
            &&& report.file_path is None
            &&& report.model == Some(m)
            &&& report.parser_error is None
            &&& report.analyzer_errors == analysis_errors(m, created_ok, updated_ok)
        },
    }
}

/// Each finding of the analyzer as a finding of validation.
pub open spec fn as_validation_errors(findings: Seq<AnalyzerErrorView>) -> Seq<ValidationErrorView> {
    Seq::new(findings.len(), |i: int| ValidationErrorView::Analyzer(findings[i]))
}

/// Whether `result` is what validation gives for a document that parses to
/// `outcome`: the finding of the parser alone, the findings of the
/// analyzer, or the model where there are none.
pub open spec fn validation_of(
    outcome: Result<ModelView, ParserErrorView>,
    created_ok: bool,
    updated_ok: bool,
    result: Result<ModelView, Seq<ValidationErrorView>>,
) -> bool {
    match outcome {
        Err(e) => result == Err::<ModelView, Seq<ValidationErrorView>>(
            seq![ValidationErrorView::Parser(e)],
        ),
        Ok(m) => if analysis_errors(m, created_ok, updated_ok).len() == 0 {
            result == Ok::<ModelView, Seq<ValidationErrorView>>(m)
        } else {
            result == Err::<ModelView, Seq<ValidationErrorView>>(
                as_validation_errors(analysis_errors(m, created_ok, updated_ok)),
            )
        },
    }
}

/// For a document without timestamps, validation does not depend on what
/// is said of their validity.
pub proof fn lemma_validation_without_timestamps(
    outcome: Result<ModelView, ParserErrorView>,
    created_ok: bool,
    updated_ok: bool,
    result: Result<ModelView, Seq<ValidationErrorView>>,
)
    requires
        !asks_for_timestamps(outcome),
        validation_of(outcome, created_ok, updated_ok, result),
    ensures
        validation_of(outcome, true, true, result),
{
    if let Ok(m) = outcome {
        lemma_analysis_without_timestamps(m, created_ok, updated_ok);
    }
}

/// The view of what `validate` returns.
pub open spec fn validated(r: Result<LrolModel, Vec<ValidationError>>) -> Result<
    ModelView,
    Seq<ValidationErrorView>,
> {
    match r {
        Ok(model) => Ok(model@),
        Err(errors) => Err(views(errors@)),
    }
}

/// The view of what the parser returns.
pub open spec fn outcome_of(r: Result<LrolModel, ParserError>) -> Result<
    ModelView,
    ParserErrorView,
> {
    match r {
        Ok(model) => Ok(model@),
        Err(e) => Err(e@),
    }
}

/// Whether the answers `created_ok` and `updated_ok` may be given for the
/// timestamps of the model that the parser returned: where it returned
/// none, both are `true`.
pub open spec fn allowed_for(
    outcome: Result<ModelView, ParserErrorView>,
    created_ok: bool,
    updated_ok: bool,
) -> bool {
    match outcome {
        Ok(m) => answers_allowed(m, created_ok, updated_ok),
        Err(_) => created_ok && updated_ok,
    }
}

/// Whether the model that the parser returned, if any, carries a timestamp.
pub open spec fn asks_for_timestamps(outcome: Result<ModelView, ParserErrorView>) -> bool {
    outcome matches Ok(m) && has_timestamps(m)
}

/// What the validation of a file comes to, once the file was read: the
/// report itself, as a success where nothing was found and as a failure
/// where the parser or the analyzer found something.
pub fn file_outcome(report: ValidationReport) -> (r: Result<ValidationReport, ValidationReport>)
    ensures
        match r {
            Ok(v) => v@ == report@ && report@.is_valid(),
            Err(v) => v@ == report@ && !report@.is_valid(),
        },
{
    if report.is_valid() {
        Ok(report)
    } else {
        Err(report)
    }
}

impl ValidationReport {
    /// A report without findings.
    pub fn new() -> (report: ValidationReport)
        ensures
            report@ == ReportView::empty(),
    {
        let report = ValidationReport {
            file_path: None,
            model: None,
            parser_error: None,
            analyzer_errors: Vec::new(),
        };
        assert(views(report.analyzer_errors@) =~= Seq::<AnalyzerErrorView>::empty());
        report
    }

    /// Whether neither the parser nor the analyzer found anything.
    pub fn is_valid(&self) -> (b: bool)
        ensures
            b == self@.is_valid(),
    {
        assert(views(self.analyzer_errors@).len() == self.analyzer_errors@.len());
        self.parser_error.is_none() && self.analyzer_errors.len() == 0
    }

    /// A report without findings, for the file at `path`.
    pub fn with_file_path(path: &str) -> (report: ValidationReport)
        ensures
            report@ == (ReportView { file_path: Some(path@), ..ReportView::empty() }),
    {
        let report = ValidationReport {
            file_path: Some(path.to_string()),
            model: None,
            parser_error: None,
            analyzer_errors: Vec::new(),
        };
        assert(views(report.analyzer_errors@) =~= Seq::<AnalyzerErrorView>::empty());
        report
    }

    /// The lines of the report.
    fn format_body(&self) -> (s: String)
        ensures
            s@ == self@.body(),
    {
        let mut output = String::new();
        if let Some(path) = &self.file_path {
            output.append("File: ");
            output.append(path.as_str());
            output.append("\n");
        }
        let ghost head = output@;
        if let Some(parser_error) = &self.parser_error {
            output.append("Parser Error: ");
            let text = parser_error.to_string();
            output.append(text.as_str());
            output.append("\n");
        }
        let ghost top = output@;
        assert(views(self.analyzer_errors@).len() == self.analyzer_errors@.len());
        if self.analyzer_errors.len() > 0 {
            output.append("Analyzer Errors:\n");
            let ghost start = output@;
            let mut i: usize = 0;
            assert(start + numbered_lines(self@.analyzer_errors, 0) =~= start);
            while i < self.analyzer_errors.len()
                invariant
                    i <= self.analyzer_errors@.len(),
                    output@ == start + numbered_lines(self@.analyzer_errors, i as int),
                decreases self.analyzer_errors@.len() - i,
            {
                assert(views(self.analyzer_errors@)[i as int] == self.analyzer_errors@[i as int]@);
                push_decimal(&mut output, i + 1);
                output.append(". ");
                let text = self.analyzer_errors[i].describe();
                output.append(text.as_str());
                output.append("\n");
                assert(output@ =~= start + numbered_lines(self@.analyzer_errors, i + 1));
                i += 1;
            }
            assert(output@ =~= self@.body());
        } else {
            assert(output@ =~= self@.body());
        }
        output
    }

    /// The report as a text: the file, the finding of the parser and the
    /// findings of the analyzer, or the statement that there are none.
    pub fn format_errors(&self) -> (s: String)
        ensures
            s@ == self@.text(),
    {
        let mut output = self.format_body();
        let chars = to_chars(output.as_str());
        let marker = to_chars("File: {}\n");
        let n = chars.len();
        let empty = n == 0;
        let marked = n >= marker.len() && range_is(
            chars.as_slice(),
            n - marker.len(),
            n,
            "File: {}\n",
        );
        if empty || marked {
            output.append("No validation errors found.");
        }
        output
    }
}

/// The validator of rule documents.
#[derive(Debug)]
pub struct RuleValidator {
    analyzer: RuleAnalyzer,
}

impl RuleValidator {
    /// Whether the analyzer of the validator has seen no model.
    pub closed spec fn fresh(&self) -> bool {
        &&& self.analyzer.names() == Seq::<Seq<char>>::empty()
        &&& self.analyzer.graph() == Seq::<(Seq<char>, Seq<Seq<char>>)>::empty()
    }

    /// A validator with an analyzer of its own, which has seen no model.
    pub fn new() -> (validator: RuleValidator)
        ensures
            validator.fresh(),
    {
        RuleValidator { analyzer: RuleAnalyzer::new() }
    }

    /// Whether the two timestamps of the model that the parser returned are
    /// valid: `true` for one that is not there, and for both where the parser
    /// returned no model; `false` for one that ends in a zone offset of 24
    /// hours or more; else the answer of `dateparser`.
    fn timestamps_of(outcome: &Result<LrolModel, ParserError>) -> (valid: (bool, bool))
        ensures
            allowed_for(outcome_of(*outcome), valid.0, valid.1),
    {
        match outcome {
            Ok(model) => RuleAnalyzer::timestamps_are_valid(model),
            Err(_) => (true, true),
        }
    }

    /// Parses a document and, where that succeeds, analyzes the model:
    /// the model where nothing was found, else the findings.
    pub fn validate(&mut self, input: &str) -> (r: Result<LrolModel, Vec<ValidationError>>)
        ensures
            exists|created_ok: bool, updated_ok: bool|
                allowed_for(parsed(input@), created_ok, updated_ok) && #[trigger] validation_of(
                    parsed(input@),
                    created_ok,
                    updated_ok,
                    validated(r),
                ),
            !asks_for_timestamps(parsed(input@)) ==> validation_of(
                parsed(input@),
                true,
                true,
                validated(r),
            ),
    {
        let outcome = LrolParser::parse(input);
        let (created_ok, updated_ok) = Self::timestamps_of(&outcome);
        let r = self.validate_parsed(outcome, created_ok, updated_ok);
        proof {
            if !asks_for_timestamps(parsed(input@)) {
                lemma_validation_without_timestamps(
                    parsed(input@),
                    created_ok,
                    updated_ok,
                    validated(r),
                );
            }
        }
        r
    }

    /// What `validate` returns for a document that the parser took to
    /// `outcome`, given whether the two timestamps of the model are valid.
    pub fn validate_parsed(
        &mut self,
        outcome: Result<LrolModel, ParserError>,
        created_ok: bool,
        updated_ok: bool,
    ) -> (r: Result<LrolModel, Vec<ValidationError>>)
        ensures
            validation_of(outcome_of(outcome), created_ok, updated_ok, validated(r)),
    {
        let mut errors: Vec<ValidationError> = Vec::new();
        let model = match outcome {
            Ok(model) => model,
            Err(e) => {
                errors.push(ValidationError::Parser(e));
                assert(views(errors@) =~= seq![ValidationErrorView::Parser(e@)]);
                return Err(errors);
            },
        };
        match self.analyzer.analyze_with(&model, created_ok, updated_ok) {
            Ok(()) => Ok(model),
            Err(analyzer_errors) => {
                let ghost all = analyzer_errors@;
                let ghost findings = views(all);
                for e in it: analyzer_errors.into_iter()
                    invariant
                        it.seq() == all,
                        errors@.len() == it.index(),
                        forall|j: int|
                            0 <= j < it.index() ==> (#[trigger] errors@[j])@
                                == ValidationErrorView::Analyzer(all[j]@),
                {
                    errors.push(ValidationError::Analyzer(e));
                }
                assert(views(errors@) =~= as_validation_errors(findings));
                Err(errors)
            },
        }
    }

    /// Parses a document and, where that succeeds, analyzes the model; the
    /// report holds all that was found.
    pub fn validate_with_report(&mut self, input: &str) -> (report: ValidationReport)
        ensures
            exists|created_ok: bool, updated_ok: bool|
                allowed_for(parsed(input@), created_ok, updated_ok) && #[trigger] report_of(
                    parsed(input@),
                    created_ok,
                    updated_ok,
                    report@,
                ),
            !asks_for_timestamps(parsed(input@)) ==> report_of(
                parsed(input@),
                true,
                true,
                report@,
            ),
    {
        let outcome = LrolParser::parse(input);
        let (created_ok, updated_ok) = Self::timestamps_of(&outcome);
        let report = self.report_parsed(outcome, created_ok, updated_ok);
        proof {
            if let Ok(m) = parsed(input@) {
                if !has_timestamps(m) {
                    lemma_analysis_without_timestamps(m, created_ok, updated_ok);
                }
            }
        }
        report
    }

    /// The report for a document that the parser took to `outcome`, given
    /// whether the two timestamps of the model are valid.
    pub fn report_parsed(
        &mut self,
        outcome: Result<LrolModel, ParserError>,
        created_ok: bool,
        updated_ok: bool,
    ) -> (report: ValidationReport)
        ensures
            report_of(outcome_of(outcome), created_ok, updated_ok, report@),
    {
        let mut report = ValidationReport::new();
        match outcome {
            Ok(model) => {
                if let Err(analyzer_errors) = self.analyzer.analyze_with(
                    &model,
                    created_ok,
                    updated_ok,
                ) {
                    report.analyzer_errors = analyzer_errors;
                }
                report.model = Some(model);
            },
            Err(e) => {
                report.parser_error = Some(e);
            },
        }
        report
    }
}

} // verus!
