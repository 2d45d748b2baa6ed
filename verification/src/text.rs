//! Character classes and small text utilities shared by the parser and the
//! analyzer. Text is handled as a sequence of `char`s: contracts speak of
//! `Seq<char>`, executable code of `&[char]` with explicit offsets.

use vstd::prelude::*;

verus! {

/// The view of every element of a sequence.
pub open spec fn views<T: View>(s: Seq<T>) -> Seq<T::V> {
    s.map_values(|t: T| t@)
}

/// The view of an optional value.
pub open spec fn view_opt<T: View>(o: Option<T>) -> Option<T::V> {
    match o {
        Some(t) => Some(t@),
        None => None,
    }
}

/// Whitespace that may separate the tokens of a document: space, tab,
/// carriage return and line feed.
pub open spec fn grammar_space(c: char) -> bool {
    c == ' ' || c == '\t' || c == '\r' || c == '\n'
}

/// A character with the Unicode property `White_Space`.
pub open spec fn unicode_space(c: char) -> bool {
    ||| '\u{9}' <= c <= '\u{D}'
    ||| c == ' '
    ||| c == '\u{85}'
    ||| c == '\u{A0}'
    ||| c == '\u{1680}'
    ||| '\u{2000}' <= c <= '\u{200A}'
    ||| c == '\u{2028}'
    ||| c == '\u{2029}'
    ||| c == '\u{202F}'
    ||| c == '\u{205F}'
    ||| c == '\u{3000}'
}

/// An ASCII decimal digit.
pub open spec fn ascii_digit(c: char) -> bool {
    '0' <= c <= '9'
}

/// The number that an ASCII digit stands for.
pub open spec fn digit_value(c: char) -> int {
    c as int - '0' as int
}

/// Whether `c` is whitespace of the grammar.
pub fn is_grammar_space(c: char) -> (b: bool)
    ensures
        b == grammar_space(c),
{
    c == ' ' || c == '\t' || c == '\r' || c == '\n'
}

/// Whether `c` is whitespace by the rules of Unicode.
pub fn is_unicode_space(c: char) -> (b: bool)
    ensures
        b == unicode_space(c),
{
    ('\u{9}' <= c && c <= '\u{D}') || c == ' ' || c == '\u{85}' || c == '\u{A0}' || c
        == '\u{1680}' || ('\u{2000}' <= c && c <= '\u{200A}') || c == '\u{2028}' || c
        == '\u{2029}' || c == '\u{202F}' || c == '\u{205F}' || c == '\u{3000}'
}

/// Whether `c` is one of the digits `0` to `9`.
pub fn is_ascii_digit(c: char) -> (b: bool)
    ensures
        b == ascii_digit(c),
{
    '0' <= c && c <= '9'
}

/// `std::string::String::push` appends one character to the string.
pub assume_specification[ std::string::String::push ](s: &mut std::string::String, ch: char)
    ensures
        final(s)@ == old(s)@.push(ch),
;

/// The characters of a string slice, in order.
pub fn to_chars(s: &str) -> (chars: Vec<char>)
    ensures
        chars@ == s@,
{
    let mut out: Vec<char> = Vec::new();
    for c in it: s.chars()
        invariant
            out@ == it.seq().take(it.index() as int),
    {
        out.push(c);
    }
    out
}

/// The string made of `text[from..to]`.
pub fn substring(text: &[char], from: usize, to: usize) -> (s: String)
    requires
        from <= to <= text@.len(),
    ensures
        s@ == text@.subrange(from as int, to as int),
{
    let mut out = String::new();
    let mut i: usize = from;
    while i < to
        invariant
            from <= i <= to <= text@.len(),
            out@ == text@.subrange(from as int, i as int),
        decreases to - i,
    {
        out.push(text[i]);
        i += 1;
        assert(text@.subrange(from as int, i as int) == text@.subrange(from as int, i - 1).push(
            text@[i - 1],
        ));
    }
    out
}

/// The string made of all of `text`.
pub fn from_chars(text: &[char]) -> (s: String)
    ensures
        s@ == text@,
{
    let s = substring(text, 0, text.len());
    assert(text@.subrange(0, text@.len() as int) == text@);
    s
}

/// Whether `text[from..to]` spells `word`.
pub open spec fn spells(text: Seq<char>, from: int, to: int, word: Seq<char>) -> bool {
    0 <= from <= to <= text.len() && text.subrange(from, to) == word
}

/// Whether `word` stands in `text` at `pos`.
pub open spec fn stands_at(text: Seq<char>, pos: int, word: Seq<char>) -> bool {
    spells(text, pos, pos + word.len(), word)
}

/// Compares `text[from..to]` with `word`.
pub fn range_spells(text: &[char], from: usize, to: usize, word: &[char]) -> (b: bool)
    requires
        from <= to <= text@.len(),
    ensures
        b == spells(text@, from as int, to as int, word@),
{
    if to - from != word.len() {
        return false;
    }
    let mut i: usize = 0;
    while i < word.len()
        invariant
            from <= to <= text@.len(),
            to - from == word@.len(),
            i <= word@.len(),
            forall|j: int| 0 <= j < i ==> text@[from + j] == word@[j],
        decreases word@.len() - i,
    {
        if text[from + i] != word[i] {
            assert(text@.subrange(from as int, to as int)[i as int] != word@[i as int]);
            return false;
        }
        i += 1;
    }
    assert(text@.subrange(from as int, to as int) =~= word@);
    true
}

/// Whether `text[from..to]` spells the string `word`.
pub fn range_is(text: &[char], from: usize, to: usize, word: &str) -> (b: bool)
    requires
        from <= to <= text@.len(),
    ensures
        b == spells(text@, from as int, to as int, word@),
{
    let w = to_chars(word);
    range_spells(text, from, to, w.as_slice())
}

/// Whether the string `word` stands in `text` at `pos`.
pub fn word_at(text: &[char], pos: usize, word: &str) -> (b: bool)
    requires
        pos <= text@.len(),
    ensures
        b == stands_at(text@, pos as int, word@),
{
    let w = to_chars(word);
    if w.len() > text.len() - pos {
        return false;
    }
    range_spells(text, pos, pos + w.len(), w.as_slice())
}

/// Whether two strings hold the same characters.
pub fn same_text(a: &str, b: &str) -> (r: bool)
    ensures
        r == (a@ == b@),
{
    let x = to_chars(a);
    let y = to_chars(b);
    let r = range_spells(x.as_slice(), 0, x.len(), y.as_slice());
    assert(x@.subrange(0, x@.len() as int) == x@);
    r
}

/// Whether every character of a text is an ASCII character.
pub open spec fn ascii_text(s: Seq<char>) -> bool {
    forall|i: int| 0 <= i < s.len() ==> #[trigger] s[i] <= '\u{7F}'
}

/// The lowercase form of an ASCII character: the small letter for a
/// capital letter, the character itself for any other.
pub open spec fn ascii_lower(c: char) -> char {
    if 'A' <= c <= 'Z' {
        ((c as int + 32) as u8) as char
    } else {
        c
    }
}

/// A text with `ascii_lower` applied to each of its characters.
pub open spec fn ascii_lowered(s: Seq<char>) -> Seq<char> {
    s.map_values(|c: char| ascii_lower(c))
}

/// What `str::to_lowercase` makes of a text.
pub uninterp spec fn lowercase_of(s: Seq<char>) -> Seq<char>;

/// The lowercase form of a text: character by character where the text
/// holds ASCII characters alone, else what `str::to_lowercase` makes of it.
pub open spec fn lowered(s: Seq<char>) -> Seq<char> {
    if ascii_text(s) {
        ascii_lowered(s)
    } else {
        lowercase_of(s)
    }
}

/// Calls `str::to_lowercase`, the lowercase form of a text by the Unicode
/// rules. The contract names the result and, for a text of ASCII
/// characters alone, gives it character by character: the capital letters
/// `A` to `Z` become small letters and nothing else changes.
#[verifier::external_body]
pub(crate) fn to_lowercase(s: &str) -> (r: String)
    ensures
        r@ == lowercase_of(s@),
        ascii_text(s@) ==> r@ == ascii_lowered(s@),
{
    s.to_lowercase()
}

/// Whether trimming takes the character `c` away: the character `what`,
/// or, where none is given, any Unicode whitespace.
pub open spec fn strips(c: char, what: Option<char>) -> bool {
    match what {
        Some(q) => c == q,
        None => unicode_space(c),
    }
}

/// The offset of the first character at or behind `pos` that trimming
/// leaves, or the end of the text.
pub open spec fn trim_start(s: Seq<char>, pos: int, what: Option<char>) -> int
    decreases s.len() - pos,
{
    if 0 <= pos < s.len() && strips(s[pos], what) {
        trim_start(s, pos + 1, what)
    } else {
        pos
    }
}

/// The offset behind the last character of `s[from..end]` that trimming
/// leaves, or `from`.
pub open spec fn trim_end(s: Seq<char>, from: int, end: int, what: Option<char>) -> int
    decreases end - from,
{
    if from < end <= s.len() && strips(s[end - 1], what) {
        trim_end(s, from, end - 1, what)
    } else {
        end
    }
}

/// The text without the characters at both its ends that trimming takes
/// away.
pub open spec fn trimmed(s: Seq<char>, what: Option<char>) -> Seq<char> {
    let from = trim_start(s, 0, what);
    s.subrange(from, trim_end(s, from, s.len() as int, what))
}

/// Whether trimming takes `c` away.
pub fn is_stripped(c: char, what: Option<char>) -> (b: bool)
    ensures
        b == strips(c, what),
{
    match what {
        Some(q) => c == q,
        None => is_unicode_space(c),
    }
}

/// A copy of `text[from..to]`.
pub fn copy_range(text: &[char], from: usize, to: usize) -> (r: Vec<char>)
    requires
        from <= to <= text@.len(),
    ensures
        r@ == text@.subrange(from as int, to as int),
{
    let mut out: Vec<char> = Vec::new();
    let mut i: usize = from;
    while i < to
        invariant
            from <= i <= to <= text@.len(),
            out@ == text@.subrange(from as int, i as int),
        decreases to - i,
    {
        out.push(text[i]);
        i += 1;
        assert(text@.subrange(from as int, i as int) == text@.subrange(from as int, i - 1).push(
            text@[i - 1],
        ));
    }
    out
}

/// The text without the characters at both its ends that are `what`, or,
/// where none is given, whitespace.
pub fn trim(text: &[char], what: Option<char>) -> (r: Vec<char>)
    ensures
        r@ == trimmed(text@, what),
{
    let mut from: usize = 0;
    while from < text.len() && is_stripped(text[from], what)
        invariant
            from <= text@.len(),
            trim_start(text@, from as int, what) == trim_start(text@, 0, what),
        decreases text@.len() - from,
    {
        from += 1;
    }
    let mut end: usize = text.len();
    while from < end && is_stripped(text[end - 1], what)
        invariant
            from <= end <= text@.len(),
            trim_end(text@, from as int, end as int, what) == trim_end(
                text@,
                from as int,
                text@.len() as int,
                what,
            ),
        decreases end - from,
    {
        end -= 1;
    }
    copy_range(text, from, end)
}

/// The offset of the first whitespace at or behind `pos`, or the end of the
/// text.
pub open spec fn word_end(s: Seq<char>, pos: int) -> int
    decreases s.len() - pos,
{
    if 0 <= pos < s.len() && !unicode_space(s[pos]) {
        word_end(s, pos + 1)
    } else {
        pos
    }
}

/// A word ends inside the text, and behind its first character.
pub proof fn lemma_word_end(s: Seq<char>, pos: int)
    ensures
        pos <= word_end(s, pos),
        pos <= s.len() ==> word_end(s, pos) <= s.len(),
        0 <= pos < s.len() && !unicode_space(s[pos]) ==> pos < word_end(s, pos),
    decreases s.len() - pos,
{
    if 0 <= pos < s.len() && !unicode_space(s[pos]) {
        lemma_word_end(s, pos + 1);
    }
}

/// The words of `s` from `pos` on: the runs of characters between
/// whitespace, in order.
pub open spec fn words_from(s: Seq<char>, pos: int) -> Seq<Seq<char>>
    decreases s.len() - pos,
{
    let start = trim_start(s, pos, None);
    if 0 <= pos <= start < s.len() {
        let end = word_end(s, start);
        proof {
            lemma_word_end(s, start);
        }
        if start < end {
            seq![s.subrange(start, end)] + words_from(s, end)
        } else {
            Seq::empty()
        }
    } else {
        Seq::empty()
    }
}

/// The words of `s`: the runs of characters between whitespace, in order.
pub open spec fn words(s: Seq<char>) -> Seq<Seq<char>> {
    words_from(s, 0)
}

/// Splits a text into its words.
pub fn split_words(text: &[char]) -> (r: Vec<Vec<char>>)
    ensures
        views(r@) == words(text@),
{
    let mut out: Vec<Vec<char>> = Vec::new();
    let mut pos: usize = 0;
    assert(views(out@) =~= Seq::<Seq<char>>::empty());
    loop
        invariant
            pos <= text@.len(),
            words(text@) == views(out@) + words_from(text@, pos as int),
        decreases text@.len() - pos,
    {
        let mut start: usize = pos;
        while start < text.len() && is_unicode_space(text[start])
            invariant
                pos <= start <= text@.len(),
                trim_start(text@, start as int, None) == trim_start(text@, pos as int, None),
            decreases text@.len() - start,
        {
            start += 1;
        }
        if start >= text.len() {
            assert(words_from(text@, pos as int) =~= Seq::<Seq<char>>::empty());
            assert(views(out@) + Seq::<Seq<char>>::empty() =~= views(out@));
            return out;
        }
        let mut end: usize = start;
        while end < text.len() && !is_unicode_space(text[end])
            invariant
                start <= end <= text@.len(),
                word_end(text@, end as int) == word_end(text@, start as int),
            decreases text@.len() - end,
        {
            end += 1;
        }
        proof {
            lemma_word_end(text@, start as int);
        }
        let word = copy_range(text, start, end);
        let ghost before = views(out@);
        out.push(word);
        proof {
            assert(views(out@) =~= before.push(word@));
            assert(words_from(text@, pos as int) == seq![word@] + words_from(text@, end as int));
            assert(before + (seq![word@] + words_from(text@, end as int)) =~= before.push(word@)
                + words_from(text@, end as int));
        }
        pos = end;
    }
}

/// The offset of the first `c` at or behind `pos`, or the end of the text.
pub open spec fn find_char(s: Seq<char>, pos: int, c: char) -> int
    decreases s.len() - pos,
{
    if 0 <= pos < s.len() && s[pos] != c {
        find_char(s, pos + 1, c)
    } else {
        pos
    }
}

/// The character is found inside the text, if at all.
pub proof fn lemma_find_char(s: Seq<char>, pos: int, c: char)
    ensures
        pos <= find_char(s, pos, c),
        pos <= s.len() ==> find_char(s, pos, c) <= s.len(),
    decreases s.len() - pos,
{
    if 0 <= pos < s.len() && s[pos] != c {
        lemma_find_char(s, pos + 1, c);
    }
}

/// The pieces of `s` from `pos` on that the character `c` separates; there
/// is always at least one, which may be empty.
pub open spec fn pieces_from(s: Seq<char>, pos: int, c: char) -> Seq<Seq<char>>
    decreases s.len() - pos,
{
    let end = find_char(s, pos, c);
    proof {
        lemma_find_char(s, pos, c);
    }
    if 0 <= pos <= end < s.len() {
        seq![s.subrange(pos, end)] + pieces_from(s, end + 1, c)
    } else {
        seq![s.subrange(pos, s.len() as int)]
    }
}

/// The pieces of `s` that the character `c` separates.
pub open spec fn pieces(s: Seq<char>, c: char) -> Seq<Seq<char>> {
    pieces_from(s, 0, c)
}

/// Splits a text at every `c`.
pub fn split_at(text: &[char], c: char) -> (r: Vec<Vec<char>>)
    ensures
        views(r@) == pieces(text@, c),
        r@.len() >= 1,
{
    let mut out: Vec<Vec<char>> = Vec::new();
    let mut pos: usize = 0;
    assert(views(out@) =~= Seq::<Seq<char>>::empty());
    loop
        invariant
            pos <= text@.len(),
            pieces(text@, c) == views(out@) + pieces_from(text@, pos as int, c),
        decreases text@.len() - pos,
    {
        let mut end: usize = pos;
        while end < text.len() && text[end] != c
            invariant
                pos <= end <= text@.len(),
                find_char(text@, end as int, c) == find_char(text@, pos as int, c),
            decreases text@.len() - end,
        {
            end += 1;
        }
        let piece = copy_range(text, pos, end);
        let ghost before = views(out@);
        out.push(piece);
        assert(views(out@) =~= before.push(piece@));
        if end >= text.len() {
            assert(before + seq![piece@] =~= before.push(piece@));
            return out;
        }
        proof {
            assert(before + (seq![piece@] + pieces_from(text@, end + 1, c)) =~= before.push(
                piece@,
            ) + pieces_from(text@, end + 1, c));
        }
        pos = end + 1;
    }
}

} // verus!
