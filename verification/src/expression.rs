//! What the analyzer reads inside text fields: references to other
//! evaluations, written `@name`, and the expression `datetime(..)` with its
//! durations.

use crate::analyzer::RuleAnalyzer;
use crate::decimal::{integer_of, parse_integer};
use crate::text::{
    from_chars, lowered, pieces, range_is, same_text, split_at, split_words, stands_at, to_chars,
    to_lowercase, trim, trimmed, views, word_at, words,
};
use vstd::prelude::*;

verus! {

/// The units of a duration.
#[derive(Debug, Clone, Copy, PartialEq, Eq, Structural)]
pub enum DurationUnit {
    Minutes,
    Hours,
    Days,
    Weeks,
    Months,
    Years,
}

/// A span of time: a count, which may be negative, and a unit.
#[derive(Debug, Clone, Copy, PartialEq, Eq, Structural)]
pub struct Duration {
    pub value: i64,
    pub unit: DurationUnit,
}

/// An argument of `datetime(..)`.
#[derive(Debug, Clone, PartialEq, Eq)]
pub enum DateTimeRef {
    Now,
    Timestamp(String),
    Duration(Duration),
}

/// What an argument of `datetime(..)` stands for.
pub enum DateTimeRefView {
    Now,
    Timestamp(Seq<char>),
    Duration(Duration),
}

impl View for DateTimeRef {
    type V = DateTimeRefView;

    open spec fn view(&self) -> DateTimeRefView {
        match self {
            DateTimeRef::Now => DateTimeRefView::Now,
            DateTimeRef::Timestamp(t) => DateTimeRefView::Timestamp(t@),
            DateTimeRef::Duration(d) => DateTimeRefView::Duration(*d),
        }
    }
}

/// The unit that a lowercase name stands for, if any.
pub open spec fn unit_named(name: Seq<char>) -> Option<DurationUnit> {
    if name == "minute"@ || name == "minutes"@ || name == "min"@ || name == "mins"@ {
        Some(DurationUnit::Minutes)
    } else if name == "hour"@ || name == "hours"@ || name == "hr"@ || name == "hrs"@ {
        Some(DurationUnit::Hours)
    } else if name == "day"@ || name == "days"@ {
        Some(DurationUnit::Days)
    } else if name == "week"@ || name == "weeks"@ {
        Some(DurationUnit::Weeks)
    } else if name == "month"@ || name == "months"@ {
        Some(DurationUnit::Months)
    } else if name == "year"@ || name == "years"@ {
        Some(DurationUnit::Years)
    } else {
        None
    }
}

impl DurationUnit {
    /// The unit that `lowered`, a name already in lowercase, stands for.
    pub fn from_lowercase(lowered: &str) -> (r: Option<DurationUnit>)
        ensures
            r == unit_named(lowered@),
    {
        if same_text(lowered, "minute") || same_text(lowered, "minutes") || same_text(
            lowered,
            "min",
        ) || same_text(lowered, "mins") {
            Some(DurationUnit::Minutes)
        } else if same_text(lowered, "hour") || same_text(lowered, "hours") || same_text(
            lowered,
            "hr",
        ) || same_text(lowered, "hrs") {
            Some(DurationUnit::Hours)
        } else if same_text(lowered, "day") || same_text(lowered, "days") {
            Some(DurationUnit::Days)
        } else if same_text(lowered, "week") || same_text(lowered, "weeks") {
            Some(DurationUnit::Weeks)
        } else if same_text(lowered, "month") || same_text(lowered, "months") {
            Some(DurationUnit::Months)
        } else if same_text(lowered, "year") || same_text(lowered, "years") {
            Some(DurationUnit::Years)
        } else {
            None
        }
    }
}

/// The references among `words`: each word that begins with `@`, without
/// that character.
pub open spec fn references_in(words: Seq<Seq<char>>) -> Seq<Seq<char>>
    decreases words.len(),
{
    if words.len() == 0 {
        Seq::empty()
    } else {
        let rest = references_in(words.drop_last());
        let word = words.last();
        if word.len() > 0 && word[0] == '@' {
            rest.push(word.drop_first())
        } else {
            rest
        }
    }
}

/// The references that a text holds: of each of its words that begins with
/// `@`, what follows that character, up to the next whitespace.
pub open spec fn references_of(text: Seq<char>) -> Seq<Seq<char>> {
    references_in(words(text))
}

/// A text without the whitespace, then the single quotes, then the double
/// quotes at its ends.
pub open spec fn unquoted(s: Seq<char>) -> Seq<char> {
    trimmed(trimmed(s, Some('\'')), Some('"'))
}

/// The duration that a text spells, or the reason why it spells none: a
/// signed integer, whitespace and the name of a unit in any case, with
/// whitespace and quotes around them.
pub open spec fn duration_of(s: Seq<char>) -> Result<Duration, Seq<char>> {
    let parts = words(unquoted(trimmed(s, None)));
    if parts.len() != 2 {
        Err("Duration must contain a number and a unit"@)
    } else {
        match integer_of(parts[0]) {
            None => Err("Invalid duration value"@),
            Some(value) => match unit_named(lowered(parts[1])) {
                None => Err("Invalid duration unit"@),
                Some(unit) => Ok(Duration { value, unit }),
            },
        }
    }
}

/// The first argument of `datetime(..)`: the word `now`, or a timestamp
/// that begins with a quote.
pub open spec fn first_argument_of(arg: Seq<char>) -> Result<DateTimeRefView, Seq<char>> {
    if arg == "now"@ {
        Ok(DateTimeRefView::Now)
    } else if arg.len() > 0 && (arg[0] == '\'' || arg[0] == '"') {
        Ok(DateTimeRefView::Timestamp(unquoted(arg)))
    } else {
        Err("Invalid first argument"@)
    }
}

/// The second argument of `datetime(..)`: a duration in quotes.
pub open spec fn second_argument_of(arg: Seq<char>) -> Result<DateTimeRefView, Seq<char>> {
    if unquoted(arg).len() == 0 {
        Err("Empty duration string"@)
    } else {
        match duration_of(unquoted(arg)) {
            Err(reason) => Err(reason),
            Ok(duration) => Ok(DateTimeRefView::Duration(duration)),
        }
    }
}

/// What stands between the brackets of an expression `datetime(..)`.
pub open spec fn arguments_of(s: Seq<char>) -> Seq<Seq<char>> {
    pieces(s.subrange("datetime("@.len() as int, s.len() - 1), ',')
}

/// The arguments of an expression `datetime(..)`, or the reason why it is
/// none: one or two arguments with commas between them and whitespace
/// around them, the first of them `now` or a quoted timestamp, the second a
/// quoted duration.
pub open spec fn datetime_of(s: Seq<char>) -> Result<
    (DateTimeRefView, Option<DateTimeRefView>),
    Seq<char>,
> {
    if !(stands_at(s, 0, "datetime("@) && s.last() == ')') {
        Err("Invalid datetime function syntax"@)
    } else {
        let args = arguments_of(s);
        if args.len() > 2 {
            Err("datetime() requires 1 or 2 arguments"@)
        } else {
            match first_argument_of(trimmed(args[0], None)) {
                Err(reason) => Err(reason),
                Ok(first) => if args.len() == 2 {
                    match second_argument_of(trimmed(args[1], None)) {
                        Err(reason) => Err(reason),
                        Ok(second) => Ok((first, Some(second))),
                    }
                } else {
                    Ok((first, None))
                },
            }
        }
    }
}

/// A text without the single quotes, then the double quotes at its ends.
pub fn unquote(text: &[char]) -> (r: Vec<char>)
    ensures
        r@ == unquoted(text@),
{
    let inner = trim(text, Some('\''));
    trim(inner.as_slice(), Some('"'))
}

/// The duration made of a count and the lowercase name of a unit.
pub fn duration_from_parts(value: Option<i64>, lowered_unit: &str) -> (r: Result<
    Duration,
    String,
>)
    ensures
        match r {
            Ok(duration) => value == Some(duration.value) && unit_named(lowered_unit@) == Some(
                duration.unit,
            ),
            Err(reason) => if value is None {
                reason@ == "Invalid duration value"@
            } else {
                unit_named(lowered_unit@) is None && reason@ == "Invalid duration unit"@
            },
        },
{
    let value = match value {
        Some(v) => v,
        None => {
            return Err("Invalid duration value".to_string());
        },
    };
    match DurationUnit::from_lowercase(lowered_unit) {
        Some(unit) => Ok(Duration { value, unit }),
        None => Err("Invalid duration unit".to_string()),
    }
}

impl RuleAnalyzer {
    /// The references that a text holds: of each of its words that begins
    /// with `@`, what follows that character.
    pub fn extract_references(value: &str) -> (refs: Vec<String>)
        ensures
            views(refs@) == references_of(value@),
    {
        let text = to_chars(value);
        let parts = split_words(text.as_slice());
        let mut refs: Vec<String> = Vec::new();
        let mut i: usize = 0;
        assert(views(refs@) =~= Seq::<Seq<char>>::empty());
        assert(views(parts@).take(0) =~= Seq::<Seq<char>>::empty());
        while i < parts.len()
            invariant
                i <= parts@.len(),
                views(refs@) == references_in(views(parts@).take(i as int)),
            decreases parts@.len() - i,
        {
            let word = &parts[i];
            proof {
                let before = views(parts@).take(i as int);
                let after = views(parts@).take(i + 1);
                assert(after.drop_last() =~= before);
                assert(after.last() == word@);
            }
            if word.len() > 0 && word[0] == '@' {
                let name = crate::text::substring(word.as_slice(), 1, word.len());
                let ghost old_refs = views(refs@);
                refs.push(name);
                assert(views(refs@) =~= old_refs.push(word@.drop_first()));
            }
            i += 1;
        }
        assert(views(parts@).take(i as int) =~= views(parts@));
        refs
    }

    /// Reads a duration such as `2 hours` or `-3 days`.
    pub fn parse_duration(duration_str: &str) -> (r: Result<Duration, String>)
        ensures
            match r {
                Ok(duration) => duration_of(duration_str@) == Ok::<Duration, Seq<char>>(duration),
                Err(reason) => duration_of(duration_str@) == Err::<Duration, Seq<char>>(reason@),
            },
    {
        let text = to_chars(duration_str);
        let bare = trim(text.as_slice(), None);
        let inner = unquote(bare.as_slice());
        let parts = split_words(inner.as_slice());
        if parts.len() != 2 {
            return Err("Duration must contain a number and a unit".to_string());
        }
        assert(views(parts@)[0] == parts@[0]@);
        assert(views(parts@)[1] == parts@[1]@);
        let value = parse_integer(parts[0].as_slice());
        let unit_name = from_chars(parts[1].as_slice());
        let unit = to_lowercase(unit_name.as_str());
        duration_from_parts(value, unit.as_str())
    }

    /// Reads an expression such as `datetime(now, '-2 hours')`.
    pub fn parse_datetime_expression(expr: &str) -> (r: Result<
        (DateTimeRef, Option<DateTimeRef>),
        String,
    >)
        ensures
            match r {
                Ok((first, second)) => datetime_of(expr@) == Ok::<
                    (DateTimeRefView, Option<DateTimeRefView>),
                    Seq<char>,
                >((first@, crate::text::view_opt(second))),
                Err(reason) => datetime_of(expr@) == Err::<
                    (DateTimeRefView, Option<DateTimeRefView>),
                    Seq<char>,
                >(reason@),
            },
    {
        let text = to_chars(expr);
        let n = text.len();
        proof {
            reveal_strlit("datetime(");
        }
        if !(word_at(text.as_slice(), 0, "datetime(") && n > 0 && text[n - 1] == ')') {
            return Err("Invalid datetime function syntax".to_string());
        }
        proof {
            assert("datetime("@.len() == 9);
            assert(text@.subrange(0, 9)[8] == "datetime("@[8]);
            assert(text@[8] == '(');
        }
        let inner = crate::text::copy_range(text.as_slice(), 9, n - 1);
        let args = split_at(inner.as_slice(), ',');
        if args.len() > 2 {
            return Err("datetime() requires 1 or 2 arguments".to_string());
        }
        assert(views(args@)[0] == args@[0]@);
        let first_text = trim(args[0].as_slice(), None);
        let first = if range_is(first_text.as_slice(), 0, first_text.len(), "now") {
            assert(first_text@.subrange(0, first_text@.len() as int) == first_text@);
            DateTimeRef::Now
        } else if first_text.len() > 0 && (first_text[0] == '\'' || first_text[0] == '"') {
            assert(first_text@.subrange(0, first_text@.len() as int) == first_text@);
            let stamp = unquote(first_text.as_slice());
            DateTimeRef::Timestamp(from_chars(stamp.as_slice()))
        } else {
            assert(first_text@.subrange(0, first_text@.len() as int) == first_text@);
            return Err("Invalid first argument".to_string());
        };
        if args.len() == 2 {
            assert(views(args@)[1] == args@[1]@);
            let second_text = trim(args[1].as_slice(), None);
            let duration_text = unquote(second_text.as_slice());
            if duration_text.len() == 0 {
                return Err("Empty duration string".to_string());
            }
            let duration_str = from_chars(duration_text.as_slice());
            match Self::parse_duration(duration_str.as_str()) {
                Ok(duration) => Ok((first, Some(DateTimeRef::Duration(duration)))),
                Err(reason) => Err(reason),
            }
        } else {
            Ok((first, None))
        }
    }
}

} // verus!
