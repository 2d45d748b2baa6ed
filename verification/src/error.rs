//! Syntax diagnostics: what a recognizer missed and where, and the error that
//! the parser hands to its caller, with line and column.

use crate::text::to_chars;
use vstd::prelude::*;

verus! {

/// What was missing where a recognizer gave up.
#[derive(Debug, Clone, Copy, PartialEq, Eq, Structural)]
pub enum SyntaxIssue {
    /// The given character was expected.
    Expected(char),
    /// A quoted string holds at least one character.
    StringContent,
    /// A number holds at least one digit.
    Digit,
    /// Neither `true` nor `false`.
    Boolean,
    /// None of the forms of a value.
    AnyValue,
    /// The text of an evaluation is an object.
    EvaluationObject,
    InvalidModelId,
    InvalidName,
    InvalidDescription,
    InvalidThreshold,
    InvalidEvaluations,
    InvalidActions,
    InvalidMetadata,
    InvalidEvaluationType,
    InvalidLogicalOperator,
    InvalidOperands,
    InvalidWeight,
    InvalidAggregation,
    MissingName,
    MissingType,
    MissingOperands,
    MissingOperator,
    MissingLeft,
    MissingRight,
}

impl SyntaxIssue {
    /// The words that name the issue, for those that have a name.
    pub open spec fn context(self) -> Seq<char> {
        match self {
            SyntaxIssue::Boolean => "boolean"@,
            SyntaxIssue::EvaluationObject => "evaluation object"@,
            SyntaxIssue::InvalidModelId => "Invalid model_id"@,
            SyntaxIssue::InvalidName => "Invalid name"@,
            SyntaxIssue::InvalidDescription => "Invalid description"@,
            SyntaxIssue::InvalidThreshold => "Invalid threshold type: expected Number"@,
            SyntaxIssue::InvalidEvaluations => "Invalid evaluations type: expected array"@,
            SyntaxIssue::InvalidActions => "Invalid actions type: expected array"@,
            SyntaxIssue::InvalidMetadata => "Invalid metadata type: expected object"@,
            SyntaxIssue::InvalidEvaluationType => "Invalid evaluation type"@,
            SyntaxIssue::InvalidLogicalOperator => "Invalid logical operator, expected 'AND' or 'OR'"@,
            SyntaxIssue::InvalidOperands => "Operands must be an array of strings"@,
            SyntaxIssue::InvalidWeight => "Weight must be a number"@,
            SyntaxIssue::InvalidAggregation => "Invalid aggregation type"@,
            SyntaxIssue::MissingName => "Missing required field 'name'"@,
            SyntaxIssue::MissingType => "Missing required field 'type'"@,
            SyntaxIssue::MissingOperands => "Logical evaluation requires 'operands' field"@,
            SyntaxIssue::MissingOperator => "Logical evaluation requires 'operator' field"@,
            SyntaxIssue::MissingLeft => "Comparison evaluation requires 'left' field"@,
            SyntaxIssue::MissingRight => "Comparison evaluation requires 'right' field"@,
            _ => Seq::empty(),
        }
    }

    /// The message that reports the issue.
    pub open spec fn message(self) -> Seq<char> {
        match self {
            SyntaxIssue::Expected(c) => "Unexpected character: '"@ + seq![c] + "'"@,
            SyntaxIssue::StringContent => "Parse error: TakeWhile1"@,
            SyntaxIssue::Digit => "Parse error: Digit"@,
            SyntaxIssue::AnyValue => "Parse error: Alt"@,
            _ => "Error in context: "@ + self.context(),
        }
    }

    /// The words that name the issue; empty for an issue without a name.
    pub fn context_text(&self) -> (s: &'static str)
        ensures
            s@ == self.context(),
    {
        match self {
            SyntaxIssue::Boolean => "boolean",
            SyntaxIssue::EvaluationObject => "evaluation object",
            SyntaxIssue::InvalidModelId => "Invalid model_id",
            SyntaxIssue::InvalidName => "Invalid name",
            SyntaxIssue::InvalidDescription => "Invalid description",
            SyntaxIssue::InvalidThreshold => "Invalid threshold type: expected Number",
            SyntaxIssue::InvalidEvaluations => "Invalid evaluations type: expected array",
            SyntaxIssue::InvalidActions => "Invalid actions type: expected array",
            SyntaxIssue::InvalidMetadata => "Invalid metadata type: expected object",
            SyntaxIssue::InvalidEvaluationType => "Invalid evaluation type",
            SyntaxIssue::InvalidLogicalOperator => "Invalid logical operator, expected 'AND' or 'OR'",
            SyntaxIssue::InvalidOperands => "Operands must be an array of strings",
            SyntaxIssue::InvalidWeight => "Weight must be a number",
            SyntaxIssue::InvalidAggregation => "Invalid aggregation type",
            SyntaxIssue::MissingName => "Missing required field 'name'",
            SyntaxIssue::MissingType => "Missing required field 'type'",
            SyntaxIssue::MissingOperands => "Logical evaluation requires 'operands' field",
            SyntaxIssue::MissingOperator => "Logical evaluation requires 'operator' field",
            SyntaxIssue::MissingLeft => "Comparison evaluation requires 'left' field",
            SyntaxIssue::MissingRight => "Comparison evaluation requires 'right' field",
            _ => {
                proof {
                    reveal_strlit("");
                }
                ""
            },
        }
    }

    /// The message that reports the issue.
    pub fn message_text(&self) -> (s: String)
        ensures
            s@ == self.message(),
    {
        match self {
            SyntaxIssue::Expected(c) => {
                let mut out = "Unexpected character: '".to_string();
                out.push(*c);
                out.push('\'');
                proof {
                    reveal_strlit("'");
                    assert(out@ =~= "Unexpected character: '"@ + seq![*c] + "'"@);
                }
                out
            },
            SyntaxIssue::StringContent => "Parse error: TakeWhile1".to_string(),
            SyntaxIssue::Digit => "Parse error: Digit".to_string(),
            SyntaxIssue::AnyValue => "Parse error: Alt".to_string(),
            _ => {
                let mut out = "Error in context: ".to_string();
                out.append(self.context_text());
                out
            },
        }
    }
}

/// A recognizer's failure: the offset, in characters, where it gave up, and
/// what it missed there.
#[derive(Debug, Clone, Copy, PartialEq, Eq, Structural)]
pub struct SyntaxFailure {
    pub offset: usize,
    pub issue: SyntaxIssue,
}

/// The failure of a recognizer at `offset`.
pub fn syntax_error<T>(offset: usize, issue: SyntaxIssue) -> (r: Result<T, SyntaxFailure>)
    ensures
        r == Err::<T, SyntaxFailure>(SyntaxFailure { offset, issue }),
{
    Err(SyntaxFailure { offset, issue })
}

/// The errors of the parser.
#[derive(Debug, Clone, PartialEq)]
pub enum ParserError {
    InvalidSyntax { line: usize, column: usize, message: String },
    MissingField { field: String },
    InvalidValue { field: String, expected: String, found: String },
}

/// What the parser returns.
pub type ParserResult<T> = Result<T, ParserError>;

/// What an error of the parser stands for.
pub enum ParserErrorView {
    InvalidSyntax { line: usize, column: usize, message: Seq<char> },
    MissingField { field: Seq<char> },
    InvalidValue { field: Seq<char>, expected: Seq<char>, found: Seq<char> },
}

impl View for ParserError {
    type V = ParserErrorView;

    open spec fn view(&self) -> ParserErrorView {
        match self {
            ParserError::InvalidSyntax { line, column, message } => ParserErrorView::InvalidSyntax {
                line: *line,
                column: *column,
                message: message@,
            },
            ParserError::MissingField { field } => ParserErrorView::MissingField { field: field@ },
            ParserError::InvalidValue { field, expected, found } => ParserErrorView::InvalidValue {
                field: field@,
                expected: expected@,
                found: found@,
            },
        }
    }
}

/// The character that writes the digit `d`.
pub open spec fn digit_char(d: int) -> char {
    if d == 0 {
        '0'
    } else if d == 1 {
        '1'
    } else if d == 2 {
        '2'
    } else if d == 3 {
        '3'
    } else if d == 4 {
        '4'
    } else if d == 5 {
        '5'
    } else if d == 6 {
        '6'
    } else if d == 7 {
        '7'
    } else if d == 8 {
        '8'
    } else {
        '9'
    }
}

/// The decimal digits of a natural number, without leading zeros.
pub open spec fn decimal_digits(n: nat) -> Seq<char>
    decreases n,
{
    if n < 10 {
        seq![digit_char(n as int)]
    } else {
        decimal_digits(n / 10).push(digit_char((n % 10) as int))
    }
}

fn digit_to_char(d: usize) -> (c: char)
    requires
        d < 10,
    ensures
        c == digit_char(d as int),
{
    if d == 0 {
        '0'
    } else if d == 1 {
        '1'
    } else if d == 2 {
        '2'
    } else if d == 3 {
        '3'
    } else if d == 4 {
        '4'
    } else if d == 5 {
        '5'
    } else if d == 6 {
        '6'
    } else if d == 7 {
        '7'
    } else if d == 8 {
        '8'
    } else {
        '9'
    }
}

/// Appends the decimal digits of `n` to `out`.
pub fn push_decimal(out: &mut String, n: usize)
    ensures
        final(out)@ == old(out)@ + decimal_digits(n as nat),
    decreases n,
{
    if n >= 10 {
        push_decimal(out, n / 10);
    }
    out.push(digit_to_char(n % 10));
    proof {
        if n >= 10 {
            assert(final(out)@ =~= old(out)@ + decimal_digits(n as nat));
        } else {
            assert(final(out)@ =~= old(out)@ + decimal_digits(n as nat));
        }
    }
}

impl ParserErrorView {
    /// The sentence that reports the error.
    pub open spec fn text(self) -> Seq<char> {
        match self {
            ParserErrorView::InvalidSyntax { line, column, message } => "Syntax error at line "@
                + decimal_digits(line as nat) + ", column "@ + decimal_digits(column as nat)
                + ": "@ + message,
            ParserErrorView::MissingField { field } => "Missing required field: "@ + field,
            ParserErrorView::InvalidValue { field, expected, found } => "Invalid value for field "@
                + field + ": expected "@ + expected + ", found "@ + found,
        }
    }
}

impl ParserError {
    /// The sentence that reports the error.
    pub fn to_string(&self) -> (s: String)
        ensures
            s@ == self@.text(),
    {
        match self {
            ParserError::InvalidSyntax { line, column, message } => {
                let mut out = "Syntax error at line ".to_string();
                push_decimal(&mut out, *line);
                out.append(", column ");
                push_decimal(&mut out, *column);
                out.append(": ");
                out.append(message.as_str());
                out
            },
            ParserError::MissingField { field } => {
                let mut out = "Missing required field: ".to_string();
                out.append(field.as_str());
                out
            },
            ParserError::InvalidValue { field, expected, found } => {
                let mut out = "Invalid value for field ".to_string();
                out.append(field.as_str());
                out.append(": expected ");
                out.append(expected.as_str());
                out.append(", found ");
                out.append(found.as_str());
                out
            },
        }
    }
}

/// The number of line feeds in `text[..offset]`.
pub open spec fn newlines_before(text: Seq<char>, offset: int) -> int
    decreases offset,
{
    if offset <= 0 {
        0
    } else {
        newlines_before(text, offset - 1) + if text[offset - 1] == '\n' {
            1int
        } else {
            0int
        }
    }
}

/// The offset at which the line that holds `offset` begins: just behind the
/// last line feed of `text[..offset]`, or zero.
pub open spec fn line_start(text: Seq<char>, offset: int) -> int
    decreases offset,
{
    if offset <= 0 {
        0
    } else if text[offset - 1] == '\n' {
        offset
    } else {
        line_start(text, offset - 1)
    }
}

/// The line of `offset`, counted from one.
pub open spec fn line_of(text: Seq<char>, offset: int) -> int {
    1 + newlines_before(text, offset)
}

/// The column of `offset` in its line, counted from one.
pub open spec fn column_of(text: Seq<char>, offset: int) -> int {
    offset - line_start(text, offset) + 1
}

/// `x` limited to the range of `usize`.
pub open spec fn clamp_usize(x: int) -> usize {
    if x < 0 {
        0
    } else if x > usize::MAX {
        usize::MAX
    } else {
        x as usize
    }
}

/// Line and column, both counted from one, of the character at `offset`.
pub fn position_at(text: &[char], offset: usize) -> (position: (usize, usize))
    requires
        offset <= text@.len(),
    ensures
        position.0 == clamp_usize(line_of(text@, offset as int)),
        position.1 == clamp_usize(column_of(text@, offset as int)),
{
    let mut newlines: usize = 0;
    let mut start: usize = 0;
    let mut i: usize = 0;
    while i < offset
        invariant
            i <= offset <= text@.len(),
            newlines == newlines_before(text@, i as int),
            start == line_start(text@, i as int),
            newlines <= i,
            start <= i,
        decreases offset - i,
    {
        if text[i] == '\n' {
            newlines = newlines + 1;
            start = i + 1;
        }
        i += 1;
    }
    (newlines.saturating_add(1), (offset - start).saturating_add(1))
}

/// Line and column of the place where `error_input`, the rest of
/// `full_input` that was not understood, begins.
pub fn get_error_position(full_input: &str, error_input: &str) -> (position: (usize, usize))
    requires
        error_input@.len() <= full_input@.len(),
    ensures
        position.0 == clamp_usize(line_of(full_input@, full_input@.len() - error_input@.len())),
        position.1 == clamp_usize(
            column_of(full_input@, full_input@.len() - error_input@.len()),
        ),
{
    let full = to_chars(full_input);
    let rest = to_chars(error_input);
    position_at(full.as_slice(), full.len() - rest.len())
}

impl SyntaxFailure {
    /// The error that reports this failure in `text`.
    pub open spec fn report(self, text: Seq<char>) -> ParserErrorView {
        ParserErrorView::InvalidSyntax {
            line: clamp_usize(line_of(text, self.offset as int)),
            column: clamp_usize(column_of(text, self.offset as int)),
            message: self.issue.message(),
        }
    }
}

/// The error that reports `failure`, with the line and column of its offset
/// in `text`.
pub fn to_parser_error(text: &[char], failure: SyntaxFailure) -> (e: ParserError)
    requires
        failure.offset <= text@.len(),
    ensures
        e@ == failure.report(text@),
{
    let (line, column) = position_at(text, failure.offset);
    ParserError::InvalidSyntax { line, column, message: failure.issue.message_text() }
}

} // verus!
