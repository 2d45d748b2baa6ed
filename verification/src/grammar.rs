//! The grammar of values: quoted strings, signed decimal numbers, the
//! literals `true` and `false`, arrays and objects. Each form is stated as a
//! function from a text and an offset to what is read there, and recognized
//! by a function of the parser that returns exactly that.

use crate::decimal::{all_digits, Decimal, DecimalView};
use crate::error::{SyntaxFailure, SyntaxIssue};
use crate::parser::LrolParser;
use crate::text::{
    ascii_digit, copy_range, grammar_space, is_ascii_digit, is_grammar_space, stands_at,
    substring, views, word_at,
};
use crate::types::{field_views, lemma_array_view, lemma_object_view, Value, ValueView};
use vstd::prelude::*;

verus! {

/// Where a recognizer gave up, and what it missed there.
pub struct Located {
    pub at: int,
    pub issue: SyntaxIssue,
}

impl SyntaxFailure {
    /// The failure as the grammar states it.
    pub open spec fn located(self) -> Located {
        Located { at: self.offset as int, issue: self.issue }
    }
}

/// The offset of the first character at or behind `pos` that is no
/// whitespace, or the end of the text.
pub open spec fn skip_spaces(s: Seq<char>, pos: int) -> int
    decreases s.len() - pos,
{
    if 0 <= pos < s.len() && grammar_space(s[pos]) {
        skip_spaces(s, pos + 1)
    } else {
        pos
    }
}

/// The offset of the first quote at or behind `pos`, or the end of the text.
pub open spec fn scan_text(s: Seq<char>, pos: int) -> int
    decreases s.len() - pos,
{
    if 0 <= pos < s.len() && s[pos] != '"' {
        scan_text(s, pos + 1)
    } else {
        pos
    }
}

/// The offset of the first character at or behind `pos` that is no digit, or
/// the end of the text.
pub open spec fn scan_digits(s: Seq<char>, pos: int) -> int
    decreases s.len() - pos,
{
    if 0 <= pos < s.len() && ascii_digit(s[pos]) {
        scan_digits(s, pos + 1)
    } else {
        pos
    }
}

/// Skipping whitespace goes forward, stays inside the text, and has
/// nothing left to skip where it ends.
pub proof fn lemma_skip_spaces(s: Seq<char>, pos: int)
    ensures
        pos <= skip_spaces(s, pos),
        pos <= s.len() ==> skip_spaces(s, pos) <= s.len(),
        skip_spaces(s, skip_spaces(s, pos)) == skip_spaces(s, pos),
    decreases s.len() - pos,
{
    if 0 <= pos < s.len() && grammar_space(s[pos]) {
        lemma_skip_spaces(s, pos + 1);
    }
}

/// The content of a string goes up to the first quote and holds none.
pub proof fn lemma_scan_text(s: Seq<char>, pos: int)
    ensures
        pos <= scan_text(s, pos),
        pos <= s.len() ==> scan_text(s, pos) <= s.len(),
        forall|i: int| pos <= i < scan_text(s, pos) ==> s[i] != '"',
    decreases s.len() - pos,
{
    if 0 <= pos < s.len() && s[pos] != '"' {
        lemma_scan_text(s, pos + 1);
    }
}

/// A run of digits holds digits only and stays inside the text.
pub proof fn lemma_scan_digits(s: Seq<char>, pos: int)
    ensures
        pos <= scan_digits(s, pos),
        pos <= s.len() ==> scan_digits(s, pos) <= s.len(),
        forall|i: int| pos <= i < scan_digits(s, pos) ==> ascii_digit(s[i]),
        0 <= pos <= s.len() ==> all_digits(s.subrange(pos, scan_digits(s, pos))),
    decreases s.len() - pos,
{
    if 0 <= pos < s.len() && ascii_digit(s[pos]) {
        lemma_scan_digits(s, pos + 1);
    }
}

/// The character `c` at `pos`: the offset behind it.
pub open spec fn char_at(s: Seq<char>, pos: int, c: char) -> Result<int, Located> {
    if 0 <= pos < s.len() && s[pos] == c {
        Ok(pos + 1)
    } else {
        Err(Located { at: pos, issue: SyntaxIssue::Expected(c) })
    }
}

/// A quoted string at `pos`: its content, which is not empty and holds no
/// quote, and the offset behind the closing quote.
pub open spec fn string_at(s: Seq<char>, pos: int) -> Result<(Seq<char>, int), Located> {
    if !(0 <= pos < s.len() && s[pos] == '"') {
        Err(Located { at: pos, issue: SyntaxIssue::Expected('"') })
    } else {
        let end = scan_text(s, pos + 1);
        if end == pos + 1 {
            Err(Located { at: pos + 1, issue: SyntaxIssue::StringContent })
        } else if end >= s.len() {
            Err(Located { at: end, issue: SyntaxIssue::Expected('"') })
        } else {
            Ok((s.subrange(pos + 1, end), end + 1))
        }
    }
}

/// A number at `pos`: an optional minus sign, digits and, where a point and
/// at least one digit follow, those.
pub open spec fn number_at(s: Seq<char>, pos: int) -> Result<(DecimalView, int), Located> {
    let negative = 0 <= pos < s.len() && s[pos] == '-';
    let first = if negative {
        pos + 1
    } else {
        pos
    };
    let point = scan_digits(s, first);
    if first < 0 || point == first {
        Err(Located { at: first, issue: SyntaxIssue::Digit })
    } else {
        let end = if point < s.len() && s[point] == '.' {
            scan_digits(s, point + 1)
        } else {
            point
        };
        if end > point + 1 {
            Ok(
                (
                    DecimalView {
                        negative,
                        integer: s.subrange(first, point),
                        fraction: s.subrange(point + 1, end),
                    },
                    end,
                ),
            )
        } else {
            Ok(
                (
                    DecimalView {
                        negative,
                        integer: s.subrange(first, point),
                        fraction: Seq::empty(),
                    },
                    point,
                ),
            )
        }
    }
}

/// One of the words `true` and `false` at `pos`.
pub open spec fn boolean_at(s: Seq<char>, pos: int) -> Result<(bool, int), Located> {
    if stands_at(s, pos, "true"@) {
        Ok((true, pos + "true"@.len()))
    } else if stands_at(s, pos, "false"@) {
        Ok((false, pos + "false"@.len()))
    } else {
        Err(Located { at: pos, issue: SyntaxIssue::Boolean })
    }
}

/// A value at `pos`, with the whitespace on both sides of it: a string, a
/// number, a boolean, an array or an object.
pub open spec fn value_at(s: Seq<char>, pos: int) -> Result<(ValueView, int), Located>
    decreases s.len() - pos, 2int,
{
    let p = skip_spaces(s, pos);
    proof {
        lemma_skip_spaces(s, pos);
    }
    match string_at(s, p) {
        Ok((t, e)) => Ok((ValueView::String(t), skip_spaces(s, e))),
        Err(_) => match number_at(s, p) {
            Ok((n, e)) => Ok((ValueView::Number(n), skip_spaces(s, e))),
            Err(_) => match boolean_at(s, p) {
                Ok((b, e)) => Ok((ValueView::Bool(b), skip_spaces(s, e))),
                Err(_) => match array_at(s, p) {
                    Ok((items, e)) => Ok((ValueView::Array(items), skip_spaces(s, e))),
                    Err(_) => match object_at(s, p) {
                        Ok((fields, e)) => Ok((ValueView::Object(fields), skip_spaces(s, e))),
                        Err(_) => Err(Located { at: p, issue: SyntaxIssue::AnyValue }),
                    },
                },
            },
        },
    }
}

/// An array at `pos`: values between square brackets, with commas between
/// them.
pub open spec fn array_at(s: Seq<char>, pos: int) -> Result<(Seq<ValueView>, int), Located>
    decreases s.len() - pos, 1int,
{
    if !(0 <= pos < s.len() && s[pos] == '[') {
        Err(Located { at: pos, issue: SyntaxIssue::Expected('[') })
    } else {
        let (items, e) = items_at(s, pos + 1);
        match char_at(s, skip_spaces(s, e), ']') {
            Ok(next) => Ok((items, next)),
            Err(failure) => Err(failure),
        }
    }
}

/// The values that stand at `pos` with commas between them, as many as there
/// are, and the offset behind the last of them. (That a value ends behind its
/// beginning and inside the text is asked only so that the definition is seen
/// to end: it holds of every value, see `lemma_value_at`.)
pub open spec fn items_at(s: Seq<char>, pos: int) -> (Seq<ValueView>, int)
    decreases s.len() - pos, 3int,
{
    match value_at(s, pos) {
        Ok((v, e)) => if pos < e <= s.len() {
            more_items(s, e, seq![v])
        } else {
            (seq![v], e)
        },
        Err(_) => (Seq::empty(), pos),
    }
}

/// The values `acc` and those that follow at `pos`, each behind a comma.
pub open spec fn more_items(s: Seq<char>, pos: int, acc: Seq<ValueView>) -> (Seq<ValueView>, int)
    decreases s.len() - pos, 0int,
{
    let comma = skip_spaces(s, pos);
    proof {
        lemma_skip_spaces(s, pos);
    }
    if 0 <= pos && comma < s.len() && s[comma] == ',' {
        match value_at(s, comma + 1) {
            Ok((v, e)) => if pos < e <= s.len() {
                more_items(s, e, acc.push(v))
            } else {
                (acc.push(v), e)
            },
            Err(_) => (acc, pos),
        }
    } else {
        (acc, pos)
    }
}

/// An object at `pos`: members between braces, with commas between them.
pub open spec fn object_at(s: Seq<char>, pos: int) -> Result<
    (Seq<(Seq<char>, ValueView)>, int),
    Located,
>
    decreases s.len() - pos, 1int,
{
    if !(0 <= pos < s.len() && s[pos] == '{') {
        Err(Located { at: pos, issue: SyntaxIssue::Expected('{') })
    } else {
        let (members, e) = members_at(s, pos + 1);
        match char_at(s, skip_spaces(s, e), '}') {
            Ok(next) => Ok((members, next)),
            Err(failure) => Err(failure),
        }
    }
}

/// The members that stand at `pos` with commas between them, as many as
/// there are, and the offset behind the last of them. (That a member ends
/// behind its beginning and inside the text is asked only so that the
/// definition is seen to end: it holds of every member, see
/// `lemma_member_at`.)
pub open spec fn members_at(s: Seq<char>, pos: int) -> (Seq<(Seq<char>, ValueView)>, int)
    decreases s.len() - pos, 3int,
{
    match member_at(s, pos) {
        Ok((m, e)) => if pos < e <= s.len() {
            more_members(s, e, seq![m])
        } else {
            (seq![m], e)
        },
        Err(_) => (Seq::empty(), pos),
    }
}

/// The members `acc` and those that follow at `pos`, each behind a comma.
pub open spec fn more_members(s: Seq<char>, pos: int, acc: Seq<(Seq<char>, ValueView)>) -> (
    Seq<(Seq<char>, ValueView)>,
    int,
)
    decreases s.len() - pos, 0int,
{
    let comma = skip_spaces(s, pos);
    proof {
        lemma_skip_spaces(s, pos);
    }
    if 0 <= pos && comma < s.len() && s[comma] == ',' {
        match member_at(s, comma + 1) {
            Ok((m, e)) => if pos < e <= s.len() {
                more_members(s, e, acc.push(m))
            } else {
                (acc.push(m), e)
            },
            Err(_) => (acc, pos),
        }
    } else {
        (acc, pos)
    }
}

/// A member of an object at `pos`, with whitespace before it: a key, a
/// colon and a value.
pub open spec fn member_at(s: Seq<char>, pos: int) -> Result<((Seq<char>, ValueView), int), Located>
    decreases s.len() - pos, 2int,
{
    proof {
        lemma_skip_spaces(s, pos);
    }
    field_at(s, skip_spaces(s, pos))
}

/// A key in quotes at `pos`, a colon and a value.
pub open spec fn field_at(s: Seq<char>, pos: int) -> Result<((Seq<char>, ValueView), int), Located>
    decreases s.len() - pos, 1int,
{
    match string_at(s, pos) {
        Err(failure) => Err(failure),
        Ok((key, e)) => {
            let colon = skip_spaces(s, e);
            proof {
                lemma_skip_spaces(s, e);
                lemma_scan_text(s, pos + 1);
            }
            match char_at(s, colon, ':') {
                Err(failure) => Err(failure),
                Ok(next) => match value_at(s, next) {
                    Err(failure) => Err(failure),
                    Ok((v, end)) => Ok(((key, v), end)),
                },
            }
        },
    }
}

/// A value that is read is not empty and ends inside the text.
pub proof fn lemma_value_at(s: Seq<char>, pos: int)
    ensures
        match value_at(s, pos) {
            Ok((_, e)) => 0 <= pos < e <= s.len(),
            Err(failure) => pos <= failure.at && (pos <= s.len() ==> failure.at <= s.len()),
        },
    decreases s.len() - pos, 2int,
{
    let p = skip_spaces(s, pos);
    reveal_strlit("true");
    reveal_strlit("false");
    lemma_skip_spaces(s, pos);
    lemma_scan_text(s, p + 1);
    lemma_scan_digits(s, p);
    lemma_scan_digits(s, p + 1);
    if p < s.len() {
        lemma_scan_digits(s, scan_digits(s, p) + 1);
        lemma_scan_digits(s, scan_digits(s, p + 1) + 1);
    }
    if string_at(s, p) is Ok {
        lemma_skip_spaces(s, string_at(s, p)->Ok_0.1);
    } else if number_at(s, p) is Ok {
        lemma_skip_spaces(s, number_at(s, p)->Ok_0.1);
    } else if boolean_at(s, p) is Ok {
        lemma_skip_spaces(s, boolean_at(s, p)->Ok_0.1);
    } else {
        lemma_array_at(s, p);
        if array_at(s, p) is Ok {
            lemma_skip_spaces(s, array_at(s, p)->Ok_0.1);
        } else {
            lemma_object_at(s, p);
            if object_at(s, p) is Ok {
                lemma_skip_spaces(s, object_at(s, p)->Ok_0.1);
            }
        }
    }
}

/// An array that is read ends inside the text.
pub proof fn lemma_array_at(s: Seq<char>, pos: int)
    ensures
        match array_at(s, pos) {
            Ok((_, e)) => 0 <= pos < e <= s.len(),
            Err(failure) => pos <= failure.at && (pos <= s.len() ==> failure.at <= s.len()),
        },
    decreases s.len() - pos, 1int,
{
    if 0 <= pos < s.len() && s[pos] == '[' {
        lemma_items_at(s, pos + 1);
        lemma_skip_spaces(s, items_at(s, pos + 1).1);
    }
}

/// A list of values ends inside the text.
pub proof fn lemma_items_at(s: Seq<char>, pos: int)
    requires
        0 <= pos <= s.len(),
    ensures
        pos <= items_at(s, pos).1 <= s.len(),
    decreases s.len() - pos, 3int,
{
    lemma_value_at(s, pos);
    match value_at(s, pos) {
        Ok((v, e)) => {
            lemma_more_items(s, e, seq![v]);
        },
        Err(_) => {},
    }
}

/// A list of values ends inside the text.
pub proof fn lemma_more_items(s: Seq<char>, pos: int, acc: Seq<ValueView>)
    requires
        0 <= pos <= s.len(),
    ensures
        pos <= more_items(s, pos, acc).1 <= s.len(),
    decreases s.len() - pos, 0int,
{
    let comma = skip_spaces(s, pos);
    lemma_skip_spaces(s, pos);
    if comma < s.len() && s[comma] == ',' {
        lemma_value_at(s, comma + 1);
        match value_at(s, comma + 1) {
            Ok((v, e)) => {
                lemma_more_items(s, e, acc.push(v));
            },
            Err(_) => {},
        }
    }
}

/// An object that is read ends inside the text.
pub proof fn lemma_object_at(s: Seq<char>, pos: int)
    ensures
        match object_at(s, pos) {
            Ok((_, e)) => 0 <= pos < e <= s.len(),
            Err(failure) => pos <= failure.at && (pos <= s.len() ==> failure.at <= s.len()),
        },
    decreases s.len() - pos, 1int,
{
    if 0 <= pos < s.len() && s[pos] == '{' {
        lemma_members_at(s, pos + 1);
        lemma_skip_spaces(s, members_at(s, pos + 1).1);
    }
}

/// A list of members ends inside the text.
pub proof fn lemma_members_at(s: Seq<char>, pos: int)
    requires
        0 <= pos <= s.len(),
    ensures
        pos <= members_at(s, pos).1 <= s.len(),
    decreases s.len() - pos, 3int,
{
    lemma_member_at(s, pos);
    match member_at(s, pos) {
        Ok((m, e)) => {
            lemma_more_members(s, e, seq![m]);
        },
        Err(_) => {},
    }
}

/// A list of members ends inside the text.
pub proof fn lemma_more_members(s: Seq<char>, pos: int, acc: Seq<(Seq<char>, ValueView)>)
    requires
        0 <= pos <= s.len(),
    ensures
        pos <= more_members(s, pos, acc).1 <= s.len(),
    decreases s.len() - pos, 0int,
{
    let comma = skip_spaces(s, pos);
    lemma_skip_spaces(s, pos);
    if comma < s.len() && s[comma] == ',' {
        lemma_member_at(s, comma + 1);
        match member_at(s, comma + 1) {
            Ok((m, e)) => {
                lemma_more_members(s, e, acc.push(m));
            },
            Err(_) => {},
        }
    }
}

/// A member that is read is not empty and ends inside the text.
pub proof fn lemma_member_at(s: Seq<char>, pos: int)
    ensures
        match member_at(s, pos) {
            Ok((_, e)) => 0 <= pos < e <= s.len(),
            Err(failure) => pos <= failure.at && (pos <= s.len() ==> failure.at <= s.len()),
        },
    decreases s.len() - pos, 2int,
{
    lemma_skip_spaces(s, pos);
    lemma_field_at(s, skip_spaces(s, pos));
}

/// A member that is read is not empty and ends inside the text.
pub proof fn lemma_field_at(s: Seq<char>, pos: int)
    ensures
        match field_at(s, pos) {
            Ok((_, e)) => 0 <= pos < e <= s.len(),
            Err(failure) => pos <= failure.at && (pos <= s.len() ==> failure.at <= s.len()),
        },
    decreases s.len() - pos, 1int,
{
    lemma_scan_text(s, pos + 1);
    match string_at(s, pos) {
        Err(_) => {},
        Ok((key, e)) => {
            let colon = skip_spaces(s, e);
            lemma_skip_spaces(s, e);
            match char_at(s, colon, ':') {
                Err(_) => {},
                Ok(next) => {
                    lemma_value_at(s, next);
                },
            }
        },
    }
}

impl LrolParser {
    /// Skips the whitespace at `pos`.
    pub fn skip_whitespace(text: &[char], pos: usize) -> (next: usize)
        requires
            pos <= text@.len(),
        ensures
            next == skip_spaces(text@, pos as int),
            pos <= next <= text@.len(),
    {
        let mut i: usize = pos;
        while i < text.len() && is_grammar_space(text[i])
            invariant
                pos <= i <= text@.len(),
                skip_spaces(text@, i as int) == skip_spaces(text@, pos as int),
            decreases text@.len() - i,
        {
            i += 1;
        }
        i
    }

    /// Reads the character `c` at `pos`.
    pub fn expect_char(text: &[char], pos: usize, c: char) -> (r: Result<usize, SyntaxFailure>)
        requires
            pos <= text@.len(),
        ensures
            match r {
                Ok(next) => char_at(text@, pos as int, c) == Ok::<int, Located>(next as int)
                    && next == pos + 1 && next <= text@.len(),
                Err(failure) => char_at(text@, pos as int, c) == Err::<int, Located>(
                    failure.located(),
                ) && failure.offset == pos,
            },
    {
        if pos < text.len() && text[pos] == c {
            Ok(pos + 1)
        } else {
            Err(SyntaxFailure { offset: pos, issue: SyntaxIssue::Expected(c) })
        }
    }

    /// Reads a quoted string at `pos`.
    pub fn parse_string(text: &[char], pos: usize) -> (r: Result<(usize, String), SyntaxFailure>)
        requires
            pos <= text@.len(),
        ensures
            match r {
                Ok((next, content)) => string_at(text@, pos as int) == Ok::<
                    (Seq<char>, int),
                    Located,
                >((content@, next as int)) && pos + 2 < next <= text@.len(),
                Err(failure) => string_at(text@, pos as int) == Err::<(Seq<char>, int), Located>(
                    failure.located(),
                ) && pos <= failure.offset <= text@.len(),
            },
    {
        if !(pos < text.len() && text[pos] == '"') {
            return Err(SyntaxFailure { offset: pos, issue: SyntaxIssue::Expected('"') });
        }
        let start: usize = pos + 1;
        let mut end: usize = start;
        while end < text.len() && text[end] != '"'
            invariant
                start <= end <= text@.len(),
                scan_text(text@, end as int) == scan_text(text@, start as int),
            decreases text@.len() - end,
        {
            end += 1;
        }
        if end == start {
            Err(SyntaxFailure { offset: start, issue: SyntaxIssue::StringContent })
        } else if end >= text.len() {
            Err(SyntaxFailure { offset: end, issue: SyntaxIssue::Expected('"') })
        } else {
            Ok((end + 1, substring(text, start, end)))
        }
    }

    /// The end of the run of digits at `pos`.
    pub fn skip_digits(text: &[char], pos: usize) -> (next: usize)
        requires
            pos <= text@.len(),
        ensures
            next == scan_digits(text@, pos as int),
            pos <= next <= text@.len(),
    {
        let mut i: usize = pos;
        while i < text.len() && is_ascii_digit(text[i])
            invariant
                pos <= i <= text@.len(),
                scan_digits(text@, i as int) == scan_digits(text@, pos as int),
            decreases text@.len() - i,
        {
            i += 1;
        }
        i
    }

    /// Reads a number at `pos`.
    pub fn parse_number(text: &[char], pos: usize) -> (r: Result<(usize, Decimal), SyntaxFailure>)
        requires
            pos <= text@.len(),
        ensures
            match r {
                Ok((next, number)) => number_at(text@, pos as int) == Ok::<
                    (DecimalView, int),
                    Located,
                >((number@, next as int)) && pos < next <= text@.len(),
                Err(failure) => number_at(text@, pos as int) == Err::<(DecimalView, int), Located>(
                    failure.located(),
                ) && pos <= failure.offset <= text@.len(),
            },
    {
        let negative = pos < text.len() && text[pos] == '-';
        let first: usize = if negative {
            pos + 1
        } else {
            pos
        };
        let point = Self::skip_digits(text, first);
        if point == first {
            return Err(SyntaxFailure { offset: first, issue: SyntaxIssue::Digit });
        }
        let end: usize = if point < text.len() && text[point] == '.' {
            Self::skip_digits(text, point + 1)
        } else {
            point
        };
        proof {
            lemma_scan_digits(text@, first as int);
            if point < text@.len() {
                lemma_scan_digits(text@, point + 1);
            }
        }
        let integer = copy_range(text, first, point);
        if end > point && end - point > 1 {
            let fraction = copy_range(text, point + 1, end);
            Ok((end, Decimal::from_digits(negative, integer, fraction)))
        } else {
            let fraction: Vec<char> = Vec::new();
            assert(fraction@ =~= Seq::<char>::empty());
            Ok((point, Decimal::from_digits(negative, integer, fraction)))
        }
    }

    /// Reads `true` or `false` at `pos`.
    pub fn parse_boolean(text: &[char], pos: usize) -> (r: Result<(usize, bool), SyntaxFailure>)
        requires
            pos <= text@.len(),
        ensures
            match r {
                Ok((next, b)) => boolean_at(text@, pos as int) == Ok::<(bool, int), Located>(
                    (b, next as int),
                ) && pos < next <= text@.len(),
                Err(failure) => boolean_at(text@, pos as int) == Err::<(bool, int), Located>(
                    failure.located(),
                ) && failure.offset == pos,
            },
    {
        proof {
            reveal_strlit("true");
            reveal_strlit("false");
            assert("true"@.len() == 4);
            assert("false"@.len() == 5);
        }
        let len = text.len();
        if word_at(text, pos, "true") {
            assert(pos + 4 <= len);
            Ok((pos + 4, true))
        } else if word_at(text, pos, "false") {
            assert(pos + 5 <= len);
            Ok((pos + 5, false))
        } else {
            Err(SyntaxFailure { offset: pos, issue: SyntaxIssue::Boolean })
        }
    }

    /// Reads a value at `pos`, with the whitespace on both sides of it.
    pub fn parse_value(text: &[char], pos: usize) -> (r: Result<(usize, Value), SyntaxFailure>)
        requires
            pos <= text@.len(),
        ensures
            match r {
                Ok((next, value)) => value_at(text@, pos as int) == Ok::<(ValueView, int), Located>(
                    (value@, next as int),
                ) && pos < next <= text@.len(),
                Err(failure) => value_at(text@, pos as int) == Err::<(ValueView, int), Located>(
                    failure.located(),
                ) && pos <= failure.offset <= text@.len(),
            },
        decreases text@.len() - pos, 2int,
    {
        let p = Self::skip_whitespace(text, pos);
        if let Ok((e, content)) = Self::parse_string(text, p) {
            return Ok((Self::skip_whitespace(text, e), Value::String(content)));
        }
        if let Ok((e, number)) = Self::parse_number(text, p) {
            return Ok((Self::skip_whitespace(text, e), Value::Number(number)));
        }
        if let Ok((e, b)) = Self::parse_boolean(text, p) {
            return Ok((Self::skip_whitespace(text, e), Value::Bool(b)));
        }
        if let Ok((e, items)) = Self::parse_array(text, p) {
            proof {
                lemma_array_view(items);
            }
            return Ok((Self::skip_whitespace(text, e), Value::Array(items)));
        }
        if let Ok((e, fields)) = Self::parse_object_value(text, p) {
            proof {
                lemma_object_view(fields);
            }
            return Ok((Self::skip_whitespace(text, e), Value::Object(fields)));
        }
        Err(SyntaxFailure { offset: p, issue: SyntaxIssue::AnyValue })
    }

    /// Reads an array at `pos`.
    pub fn parse_array(text: &[char], pos: usize) -> (r: Result<(usize, Vec<Value>), SyntaxFailure>)
        requires
            pos <= text@.len(),
        ensures
            match r {
                Ok((next, items)) => array_at(text@, pos as int) == Ok::<
                    (Seq<ValueView>, int),
                    Located,
                >((views(items@), next as int)) && pos < next <= text@.len(),
                Err(failure) => array_at(text@, pos as int) == Err::<
                    (Seq<ValueView>, int),
                    Located,
                >(failure.located()) && pos <= failure.offset <= text@.len(),
            },
        decreases text@.len() - pos, 1int,
    {
        if !(pos < text.len() && text[pos] == '[') {
            return Err(SyntaxFailure { offset: pos, issue: SyntaxIssue::Expected('[') });
        }
        let (e, items) = Self::parse_items(text, pos + 1);
        let close = Self::skip_whitespace(text, e);
        match Self::expect_char(text, close, ']') {
            Ok(next) => Ok((next, items)),
            Err(failure) => Err(failure),
        }
    }

    /// Reads the values at `pos` that commas separate.
    pub fn parse_items(text: &[char], pos: usize) -> (r: (usize, Vec<Value>))
        requires
            pos <= text@.len(),
        ensures
            items_at(text@, pos as int) == (views(r.1@), r.0 as int),
            pos <= r.0 <= text@.len(),
        decreases text@.len() - pos, 3int,
    {
        let mut items: Vec<Value> = Vec::new();
        let mut cur: usize = pos;
        match Self::parse_value(text, pos) {
            Err(_) => {
                assert(views(items@) =~= Seq::<ValueView>::empty());
                return (pos, items);
            },
            Ok((e, v)) => {
                items.push(v);
                cur = e;
                assert(views(items@) =~= seq![v@]);
            },
        }
        loop
            invariant
                pos < cur <= text@.len(),
                items_at(text@, pos as int) == more_items(text@, cur as int, views(items@)),
            decreases text@.len() - cur,
        {
            let comma = Self::skip_whitespace(text, cur);
            if !(comma < text.len() && text[comma] == ',') {
                return (cur, items);
            }
            match Self::parse_value(text, comma + 1) {
                Err(_) => {
                    return (cur, items);
                },
                Ok((e, v)) => {
                    let ghost before = views(items@);
                    items.push(v);
                    assert(views(items@) =~= before.push(v@));
                    cur = e;
                },
            }
        }
    }

    /// Reads an object at `pos`.
    pub fn parse_object_value(text: &[char], pos: usize) -> (r: Result<
        (usize, Vec<(String, Value)>),
        SyntaxFailure,
    >)
        requires
            pos <= text@.len(),
        ensures
            match r {
                Ok((next, fields)) => object_at(text@, pos as int) == Ok::<
                    (Seq<(Seq<char>, ValueView)>, int),
                    Located,
                >((field_views(fields@), next as int)) && pos < next <= text@.len(),
                Err(failure) => object_at(text@, pos as int) == Err::<
                    (Seq<(Seq<char>, ValueView)>, int),
                    Located,
                >(failure.located()) && pos <= failure.offset <= text@.len(),
            },
        decreases text@.len() - pos, 1int,
    {
        if !(pos < text.len() && text[pos] == '{') {
            return Err(SyntaxFailure { offset: pos, issue: SyntaxIssue::Expected('{') });
        }
        let (e, fields) = Self::parse_members(text, pos + 1);
        let close = Self::skip_whitespace(text, e);
        match Self::expect_char(text, close, '}') {
            Ok(next) => Ok((next, fields)),
            Err(failure) => Err(failure),
        }
    }

    /// Reads the members at `pos` that commas separate.
    pub fn parse_members(text: &[char], pos: usize) -> (r: (usize, Vec<(String, Value)>))
        requires
            pos <= text@.len(),
        ensures
            members_at(text@, pos as int) == (field_views(r.1@), r.0 as int),
            pos <= r.0 <= text@.len(),
        decreases text@.len() - pos, 3int,
    {
        let mut fields: Vec<(String, Value)> = Vec::new();
        let mut cur: usize = pos;
        match Self::parse_key_value(text, pos) {
            Err(_) => {
                assert(field_views(fields@) =~= Seq::<(Seq<char>, ValueView)>::empty());
                return (pos, fields);
            },
            Ok((e, member)) => {
                fields.push(member);
                cur = e;
                assert(field_views(fields@) =~= seq![(member.0@, member.1@)]);
            },
        }
        loop
            invariant
                pos < cur <= text@.len(),
                members_at(text@, pos as int) == more_members(
                    text@,
                    cur as int,
                    field_views(fields@),
                ),
            decreases text@.len() - cur,
        {
            let comma = Self::skip_whitespace(text, cur);
            if !(comma < text.len() && text[comma] == ',') {
                return (cur, fields);
            }
            match Self::parse_key_value(text, comma + 1) {
                Err(_) => {
                    return (cur, fields);
                },
                Ok((e, member)) => {
                    let ghost before = field_views(fields@);
                    fields.push(member);
                    assert(field_views(fields@) =~= before.push((member.0@, member.1@)));
                    cur = e;
                },
            }
        }
    }

    /// Reads a member of an object at `pos`, with whitespace before it.
    pub fn parse_key_value(text: &[char], pos: usize) -> (r: Result<
        (usize, (String, Value)),
        SyntaxFailure,
    >)
        requires
            pos <= text@.len(),
        ensures
            match r {
                Ok((next, member)) => member_at(text@, pos as int) == Ok::<
                    ((Seq<char>, ValueView), int),
                    Located,
                >(((member.0@, member.1@), next as int)) && pos < next <= text@.len(),
                Err(failure) => member_at(text@, pos as int) == Err::<
                    ((Seq<char>, ValueView), int),
                    Located,
                >(failure.located()) && pos <= failure.offset <= text@.len(),
            },
        decreases text@.len() - pos, 2int,
    {
        let p = Self::skip_whitespace(text, pos);
        Self::parse_field(text, p)
    }

    /// Reads a key in quotes, a colon and a value at `pos`.
    pub fn parse_field(text: &[char], pos: usize) -> (r: Result<
        (usize, (String, Value)),
        SyntaxFailure,
    >)
        requires
            pos <= text@.len(),
        ensures
            match r {
                Ok((next, member)) => field_at(text@, pos as int) == Ok::<
                    ((Seq<char>, ValueView), int),
                    Located,
                >(((member.0@, member.1@), next as int)) && pos < next <= text@.len(),
                Err(failure) => field_at(text@, pos as int) == Err::<
                    ((Seq<char>, ValueView), int),
                    Located,
                >(failure.located()) && pos <= failure.offset <= text@.len(),
            },
        decreases text@.len() - pos, 1int,
    {
        let (e, key) = match Self::parse_string(text, pos) {
            Ok(read) => read,
            Err(failure) => {
                return Err(failure);
            },
        };
        let colon = Self::skip_whitespace(text, e);
        let next = match Self::expect_char(text, colon, ':') {
            Ok(next) => next,
            Err(failure) => {
                return Err(failure);
            },
        };
        match Self::parse_value(text, next) {
            Ok((end, value)) => Ok((end, (key, value))),
            Err(failure) => Err(failure),
        }
    }
}

impl Decimal {
    /// The number that a text spells, where the whole text is a number.
    pub fn parse(text: &str) -> (r: Option<Decimal>)
        ensures
            match r {
                Some(number) => number_at(text@, 0) == Ok::<(DecimalView, int), Located>(
                    (number@, text@.len() as int),
                ),
                None => !(number_at(text@, 0) matches Ok((_, end)) && end == text@.len()),
            },
    {
        let chars = crate::text::to_chars(text);
        match LrolParser::parse_number(chars.as_slice(), 0) {
            Ok((end, number)) => if end == chars.len() {
                Some(number)
            } else {
                None
            },
            Err(_) => None,
        }
    }
}

} // verus!
