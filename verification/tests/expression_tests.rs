use lrol::analyzer::RuleAnalyzer;
use lrol::expression::{
    duration_from_parts, unquote, DateTimeRef, Duration, DurationUnit,
};
use lrol::text::{
    from_chars, is_ascii_digit, is_grammar_space, is_stripped, is_unicode_space, range_is,
    range_spells, same_text, split_at, split_words, substring, to_chars, trim, word_at,
};

fn chars(input: &str) -> Vec<char> {
    input.chars().collect()
}

fn words(input: &str) -> Vec<String> {
    split_words(&chars(input)).iter().map(|w| w.iter().collect()).collect()
}

fn pieces(input: &str, c: char) -> Vec<String> {
    split_at(&chars(input), c).iter().map(|w| w.iter().collect()).collect()
}

fn trimmed(input: &str, what: Option<char>) -> String {
    trim(&chars(input), what).iter().collect()
}

fn duration(value: i64, unit: DurationUnit) -> Duration {
    Duration { value, unit }
}

#[test]
fn references_are_the_words_behind_an_at_sign() {
    assert_eq!(
        RuleAnalyzer::extract_references("@eval1 and @eval2 check"),
        vec!["eval1".to_string(), "eval2".to_string()]
    );
    assert_eq!(RuleAnalyzer::extract_references("no reference here"), Vec::<String>::new());
    assert_eq!(RuleAnalyzer::extract_references(""), Vec::<String>::new());
    assert_eq!(RuleAnalyzer::extract_references("a@b"), Vec::<String>::new());
}

#[test]
fn references_keep_what_clings_to_them() {
    assert_eq!(
        RuleAnalyzer::extract_references("(@a) @eval2, @ @@x\t@y\n@z\u{3000}@é."),
        vec![
            "eval2,".to_string(),
            "".to_string(),
            "@x".to_string(),
            "y".to_string(),
            "z".to_string(),
            "é.".to_string(),
        ]
    );
}

#[test]
fn durations_are_a_count_and_a_unit() {
    assert_eq!(RuleAnalyzer::parse_duration("2 hours"), Ok(duration(2, DurationUnit::Hours)));
    assert_eq!(RuleAnalyzer::parse_duration("-3 days"), Ok(duration(-3, DurationUnit::Days)));
    assert_eq!(RuleAnalyzer::parse_duration("+1 week"), Ok(duration(1, DurationUnit::Weeks)));
    assert_eq!(
        RuleAnalyzer::parse_duration("  '\"10   MINS\"'  "),
        Ok(duration(10, DurationUnit::Minutes))
    );
    assert_eq!(RuleAnalyzer::parse_duration("0 Years"), Ok(duration(0, DurationUnit::Years)));
}

#[test]
fn every_unit_has_its_names() {
    let names = vec![
        ("minute", DurationUnit::Minutes),
        ("minutes", DurationUnit::Minutes),
        ("min", DurationUnit::Minutes),
        ("mins", DurationUnit::Minutes),
        ("hour", DurationUnit::Hours),
        ("hours", DurationUnit::Hours),
        ("hr", DurationUnit::Hours),
        ("hrs", DurationUnit::Hours),
        ("day", DurationUnit::Days),
        ("days", DurationUnit::Days),
        ("week", DurationUnit::Weeks),
        ("weeks", DurationUnit::Weeks),
        ("month", DurationUnit::Months),
        ("months", DurationUnit::Months),
        ("year", DurationUnit::Years),
        ("years", DurationUnit::Years),
    ];
    for (name, unit) in names {
        assert_eq!(DurationUnit::from_lowercase(name), Some(unit));
        assert_eq!(
            RuleAnalyzer::parse_duration(&format!("5 {}", name.to_uppercase())),
            Ok(duration(5, unit))
        );
    }
    assert_eq!(DurationUnit::from_lowercase("Hours"), None);
    assert_eq!(DurationUnit::from_lowercase("seconds"), None);
    assert_eq!(DurationUnit::from_lowercase(""), None);
}

#[test]
fn the_case_of_a_unit_is_folded_as_the_standard_library_does() {
    assert_eq!(
        RuleAnalyzer::parse_duration("1 WEE\u{212A}S"),
        Ok(duration(1, DurationUnit::Weeks))
    );
}

#[test]
fn a_duration_that_is_none_says_why() {
    assert_eq!(
        RuleAnalyzer::parse_duration("bogus"),
        Err("Duration must contain a number and a unit".to_string())
    );
    assert_eq!(
        RuleAnalyzer::parse_duration(""),
        Err("Duration must contain a number and a unit".to_string())
    );
    assert_eq!(
        RuleAnalyzer::parse_duration("1 2 3"),
        Err("Duration must contain a number and a unit".to_string())
    );
    assert_eq!(
        RuleAnalyzer::parse_duration("two hours"),
        Err("Invalid duration value".to_string())
    );
    assert_eq!(
        RuleAnalyzer::parse_duration("1.5 hours"),
        Err("Invalid duration value".to_string())
    );
    assert_eq!(
        RuleAnalyzer::parse_duration("99999999999999999999 hours"),
        Err("Invalid duration value".to_string())
    );
    assert_eq!(
        RuleAnalyzer::parse_duration("invalid duration"),
        Err("Invalid duration value".to_string())
    );
    assert_eq!(
        RuleAnalyzer::parse_duration("2 fortnights"),
        Err("Invalid duration unit".to_string())
    );
    assert_eq!(
        duration_from_parts(None, "hours"),
        Err("Invalid duration value".to_string())
    );
    assert_eq!(
        duration_from_parts(Some(1), "HOURS"),
        Err("Invalid duration unit".to_string())
    );
    assert_eq!(duration_from_parts(Some(-4), "hrs"), Ok(duration(-4, DurationUnit::Hours)));
}

#[test]
fn datetime_takes_one_or_two_arguments() {
    assert_eq!(
        RuleAnalyzer::parse_datetime_expression("datetime(now)"),
        Ok((DateTimeRef::Now, None))
    );
    assert_eq!(
        RuleAnalyzer::parse_datetime_expression("datetime( now , '-2 hours' )"),
        Ok((
            DateTimeRef::Now,
            Some(DateTimeRef::Duration(duration(-2, DurationUnit::Hours)))
        ))
    );
    assert_eq!(
        RuleAnalyzer::parse_datetime_expression("datetime('2024-01-01', \"3 days\")"),
        Ok((
            DateTimeRef::Timestamp("2024-01-01".to_string()),
            Some(DateTimeRef::Duration(duration(3, DurationUnit::Days)))
        ))
    );
    assert_eq!(
        RuleAnalyzer::parse_datetime_expression("datetime(\"not checked)"),
        Ok((DateTimeRef::Timestamp("not checked".to_string()), None))
    );
}

#[test]
fn a_datetime_expression_that_is_none_says_why() {
    let syntax = Err("Invalid datetime function syntax".to_string());
    assert_eq!(RuleAnalyzer::parse_datetime_expression("datetime(now"), syntax);
    assert_eq!(RuleAnalyzer::parse_datetime_expression("datetime("), syntax);
    assert_eq!(RuleAnalyzer::parse_datetime_expression("date(now)"), syntax);
    assert_eq!(RuleAnalyzer::parse_datetime_expression(""), syntax);
    assert_eq!(RuleAnalyzer::parse_datetime_expression(" datetime(now)"), syntax);
    assert_eq!(RuleAnalyzer::parse_datetime_expression("datetime(now) "), syntax);
    assert_eq!(RuleAnalyzer::parse_datetime_expression("DATETIME(now)"), syntax);
    assert_eq!(
        RuleAnalyzer::parse_datetime_expression("datetime(now, '1 day', 3)"),
        Err("datetime() requires 1 or 2 arguments".to_string())
    );
    assert_eq!(
        RuleAnalyzer::parse_datetime_expression("datetime()"),
        Err("Invalid first argument".to_string())
    );
    assert_eq!(
        RuleAnalyzer::parse_datetime_expression("datetime(tomorrow)"),
        Err("Invalid first argument".to_string())
    );
    assert_eq!(
        RuleAnalyzer::parse_datetime_expression("datetime(Now)"),
        Err("Invalid first argument".to_string())
    );
    assert_eq!(
        RuleAnalyzer::parse_datetime_expression("datetime(now, '')"),
        Err("Empty duration string".to_string())
    );
    assert_eq!(
        RuleAnalyzer::parse_datetime_expression("datetime(now,)"),
        Err("Empty duration string".to_string())
    );
    assert_eq!(
        RuleAnalyzer::parse_datetime_expression("datetime(now, 'bogus')"),
        Err("Duration must contain a number and a unit".to_string())
    );
    assert_eq!(
        RuleAnalyzer::parse_datetime_expression("datetime(now, '2 bogus')"),
        Err("Invalid duration unit".to_string())
    );
    assert_eq!(
        RuleAnalyzer::parse_datetime_expression("datetime(bad, 'bogus')"),
        Err("Invalid first argument".to_string())
    );
}

#[test]
fn words_are_what_stands_between_whitespace() {
    assert_eq!(words("  a  bc\td\n"), vec!["a", "bc", "d"]);
    assert_eq!(words(""), Vec::<String>::new());
    assert_eq!(words(" \u{a0}\u{2003} "), Vec::<String>::new());
    assert_eq!(words("a\u{a0}b\u{85}c\u{1680}d\u{2028}e"), vec!["a", "b", "c", "d", "e"]);
    assert_eq!(words("a\u{200b}b"), vec!["a\u{200b}b"]);
}

#[test]
fn pieces_are_split_at_every_separator() {
    assert_eq!(pieces("a,b", ','), vec!["a", "b"]);
    assert_eq!(pieces("", ','), vec![""]);
    assert_eq!(pieces(",", ','), vec!["", ""]);
    assert_eq!(pieces("a,,b,", ','), vec!["a", "", "b", ""]);
    assert_eq!(pieces("abc", ','), vec!["abc"]);
}

#[test]
fn trimming_takes_from_both_ends() {
    assert_eq!(trimmed("  a b \t\n", None), "a b");
    assert_eq!(trimmed("   ", None), "");
    assert_eq!(trimmed("", None), "");
    assert_eq!(trimmed("''a'b''", Some('\'')), "a'b");
    assert_eq!(trimmed("'''", Some('\'')), "");
    assert_eq!(trimmed(" 'a' ", Some('\'')), " 'a' ");
    let bare: String = unquote(&chars("'\"x\"'")).iter().collect();
    assert_eq!(bare, "x");
    let kept: String = unquote(&chars("\"'x'\"")).iter().collect();
    assert_eq!(kept, "'x'");
}

#[test]
fn characters_are_sorted_into_classes() {
    for c in [' ', '\t', '\r', '\n'] {
        assert!(is_grammar_space(c));
    }
    assert!(!is_grammar_space('\u{b}'));
    assert!(!is_grammar_space('\u{a0}'));
    for c in ['\u{9}', '\u{a}', '\u{b}', '\u{c}', '\u{d}', ' ', '\u{85}', '\u{a0}', '\u{1680}', '\u{2000}', '\u{200a}', '\u{2028}', '\u{2029}', '\u{202f}', '\u{205f}', '\u{3000}'] {
        assert!(is_unicode_space(c));
        assert!(c.is_whitespace());
    }
    for c in ['a', '\u{8}', '\u{e}', '\u{200b}', '\u{feff}', '\u{180e}', '\u{1f}'] {
        assert!(!is_unicode_space(c));
        assert!(!c.is_whitespace());
    }
    assert!(is_ascii_digit('0') && is_ascii_digit('9'));
    assert!(!is_ascii_digit('/') && !is_ascii_digit(':') && !is_ascii_digit('٣'));
    assert!(is_stripped(' ', None) && !is_stripped('x', None));
    assert!(is_stripped('x', Some('x')) && !is_stripped(' ', Some('x')));
}

#[test]
fn the_white_space_of_unicode_is_what_the_standard_library_says() {
    let mut c = 0u32;
    while c <= 0x10FFFF {
        if let Some(ch) = char::from_u32(c) {
            assert_eq!(is_unicode_space(ch), ch.is_whitespace(), "U+{:04X}", c);
        }
        c += 1;
    }
}

#[test]
fn texts_are_compared_by_their_characters() {
    assert!(same_text("abc", "abc"));
    assert!(!same_text("abc", "abd"));
    assert!(!same_text("abc", "ab"));
    assert!(same_text("", ""));
    let text = chars("hello world");
    assert!(range_is(&text, 6, 11, "world"));
    assert!(!range_is(&text, 6, 10, "world"));
    assert!(range_spells(&text, 0, 5, &chars("hello")));
    assert!(word_at(&text, 6, "wor"));
    assert!(!word_at(&text, 7, "wor"));
    assert!(!word_at(&text, 9, "ldx"));
    assert!(word_at(&text, 11, ""));
    assert_eq!(substring(&text, 3, 8), "lo wo");
    assert_eq!(from_chars(&text), "hello world");
    assert_eq!(to_chars("héllo"), vec!['h', 'é', 'l', 'l', 'o']);
}
