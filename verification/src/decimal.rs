//! Decimal numbers as they are written in a document: a sign, the digits
//! before the point and the digits after it. Nothing is rounded, so the
//! range checks of the analyzer are exact.

use crate::text::{ascii_digit, digit_value};
use vstd::prelude::*;

verus! {

/// A signed decimal number, digit by digit.
#[derive(Debug, PartialEq, Eq)]
pub struct Decimal {
    negative: bool,
    integer: Vec<char>,
    fraction: Vec<char>,
}

/// What a `Decimal` stands for: its sign and its digits on both sides of the
/// point, most significant digit first.
pub struct DecimalView {
    pub negative: bool,
    pub integer: Seq<char>,
    pub fraction: Seq<char>,
}

/// Every character of `s` is an ASCII digit.
pub open spec fn all_digits(s: Seq<char>) -> bool {
    forall|i: int| 0 <= i < s.len() ==> ascii_digit(#[trigger] s[i])
}

/// Every character of `s` is the digit zero.
pub open spec fn all_zeros(s: Seq<char>) -> bool {
    forall|i: int| 0 <= i < s.len() ==> #[trigger] s[i] == '0'
}

/// The number that a run of digits spells.
pub open spec fn digits_value(s: Seq<char>) -> int
    decreases s.len(),
{
    if s.len() == 0 {
        0
    } else {
        digits_value(s.drop_last()) * 10 + digit_value(s.last())
    }
}

/// Ten to the power `n`.
pub open spec fn pow10(n: nat) -> nat
    decreases n,
{
    if n == 0 {
        1
    } else {
        10 * pow10((n - 1) as nat)
    }
}

/// `x` limited to the range of `i32`.
pub open spec fn clamp_i32(x: int) -> int {
    if x < i32::MIN {
        i32::MIN as int
    } else if x > i32::MAX {
        i32::MAX as int
    } else {
        x
    }
}

impl DecimalView {
    /// At least one digit before the point, and digits only.
    pub open spec fn wf(self) -> bool {
        &&& self.integer.len() > 0
        &&& all_digits(self.integer)
        &&& all_digits(self.fraction)
    }

    /// The number times `self.denominator()`, an integer.
    pub open spec fn numerator(self) -> int {
        if self.negative {
            -digits_value(self.integer + self.fraction)
        } else {
            digits_value(self.integer + self.fraction)
        }
    }

    /// Ten to the number of digits after the point.
    pub open spec fn denominator(self) -> nat {
        pow10(self.fraction.len())
    }

    /// The number lies between zero and one, both included.
    pub open spec fn in_unit_interval(self) -> bool {
        0 <= self.numerator() <= self.denominator()
    }

    /// The number without its fraction (rounded toward zero).
    pub open spec fn truncated(self) -> int {
        if self.negative {
            -digits_value(self.integer)
        } else {
            digits_value(self.integer)
        }
    }

    /// The number as it is written: `-`, if negative, the digits before the
    /// point and, where there are digits after it, the point and those.
    pub open spec fn lexeme(self) -> Seq<char> {
        let sign = if self.negative {
            seq!['-']
        } else {
            Seq::<char>::empty()
        };
        let tail = if self.fraction.len() > 0 {
            seq!['.'] + self.fraction
        } else {
            Seq::<char>::empty()
        };
        sign + self.integer + tail
    }
}

/// A power of ten is at least one.
pub proof fn lemma_pow10_positive(n: nat)
    ensures
        pow10(n) >= 1,
    decreases n,
{
    if n > 0 {
        lemma_pow10_positive((n - 1) as nat);
    }
}

/// A run of digits spells a number below ten to its length.
pub proof fn lemma_digits_value_bound(s: Seq<char>)
    requires
        all_digits(s),
    ensures
        0 <= digits_value(s) < pow10(s.len()),
    decreases s.len(),
{
    if s.len() > 0 {
        let init = s.drop_last();
        assert forall|i: int| 0 <= i < init.len() implies ascii_digit(#[trigger] init[i]) by {
            assert(init[i] == s[i]);
        }
        lemma_digits_value_bound(init);
        assert(ascii_digit(s[s.len() - 1]));
    }
}

/// A run of digits spells zero exactly when all of them are zero.
pub proof fn lemma_digits_value_zero(s: Seq<char>)
    requires
        all_digits(s),
    ensures
        digits_value(s) == 0 <==> all_zeros(s),
    decreases s.len(),
{
    if s.len() > 0 {
        let init = s.drop_last();
        assert forall|i: int| 0 <= i < init.len() implies ascii_digit(#[trigger] init[i]) by {
            assert(init[i] == s[i]);
        }
        lemma_digits_value_zero(init);
        assert(ascii_digit(s[s.len() - 1]));
        if all_zeros(s) {
            assert forall|i: int| 0 <= i < init.len() implies #[trigger] init[i] == '0' by {
                assert(init[i] == s[i]);
            }
            assert(s[s.len() - 1] == '0');
        }
        if digits_value(s) == 0 {
            assert(all_zeros(init));
            assert forall|i: int| 0 <= i < s.len() implies #[trigger] s[i] == '0' by {
                if i < init.len() {
                    assert(init[i] == s[i]);
                }
            }
        }
    }
}

/// The digits of two runs written one after the other.
pub proof fn lemma_digits_value_concat(a: Seq<char>, b: Seq<char>)
    ensures
        digits_value(a + b) == digits_value(a) * pow10(b.len()) + digits_value(b),
    decreases b.len(),
{
    if b.len() == 0 {
        assert(a + b =~= a);
        assert(digits_value(a) * 1 == digits_value(a));
        assert(pow10(0) == 1);
    } else {
        let init = b.drop_last();
        assert((a + b).drop_last() =~= a + init);
        assert((a + b).last() == b.last());
        lemma_digits_value_concat(a, init);
        let da = digits_value(a);
        let p = pow10(init.len()) as int;
        let di = digits_value(init);
        let d = digit_value(b.last());
        assert(pow10(b.len()) == 10 * p);
        assert((da * p + di) * 10 + d == da * (10 * p) + (di * 10 + d)) by (nonlinear_arith);
        assert(digits_value(a + b) == digits_value(a + init) * 10 + d);
        assert(digits_value(b) == di * 10 + d);
        assert(digits_value(a + b) == da * (10 * p) + digits_value(b));
    }
}

impl View for Decimal {
    type V = DecimalView;

    closed spec fn view(&self) -> DecimalView {
        DecimalView { negative: self.negative, integer: self.integer@, fraction: self.fraction@ }
    }
}

impl Decimal {
    /// Every `Decimal` is well formed.
    #[verifier::type_invariant]
    pub open spec fn valid(self) -> bool {
        self@.wf()
    }

    /// What the number zero, written `0`, stands for.
    pub open spec fn zero_view() -> DecimalView {
        DecimalView { negative: false, integer: seq!['0'], fraction: Seq::empty() }
    }

    /// The number zero, written `0`.
    pub fn zero() -> (d: Decimal)
        ensures
            d@ == Decimal::zero_view(),
    {
        let mut integer: Vec<char> = Vec::new();
        integer.push('0');
        let d = Decimal { negative: false, integer, fraction: Vec::new() };
        assert(d@.integer =~= seq!['0']);
        assert(d@.fraction =~= Seq::<char>::empty());
        d
    }

    /// The number with the given sign and digits.
    pub fn from_digits(negative: bool, integer: Vec<char>, fraction: Vec<char>) -> (d: Decimal)
        requires
            integer@.len() > 0,
            all_digits(integer@),
            all_digits(fraction@),
        ensures
            d@ == (DecimalView { negative, integer: integer@, fraction: fraction@ }),
    {
        Decimal { negative, integer, fraction }
    }

    /// An equal number.
    pub fn duplicate(&self) -> (d: Decimal)
        ensures
            d@ == self@,
    {
        proof {
            use_type_invariant(self);
        }
        let integer = copy_chars(&self.integer);
        let fraction = copy_chars(&self.fraction);
        Decimal { negative: self.negative, integer, fraction }
    }

    /// Whether the number is written with a minus sign.
    pub fn is_negative(&self) -> (b: bool)
        ensures
            b == self@.negative,
    {
        self.negative
    }

    /// Whether the number lies in the closed interval from zero to one.
    pub fn is_in_unit_interval(&self) -> (b: bool)
        ensures
            b == self@.in_unit_interval(),
    {
        proof {
            use_type_invariant(self);
            lemma_digits_value_concat(self.integer@, self.fraction@);
            lemma_digits_value_bound(self.fraction@);
            lemma_digits_value_zero(self.fraction@);
            lemma_pow10_positive(self.fraction@.len());
        }
        let class = leading_class(&self.integer);
        let fraction_is_zero = only_zeros(&self.fraction);
        let ghost d = digits_value(self.integer@);
        let ghost p = pow10(self.fraction@.len()) as int;
        if class == 0 {
            assert(d * p == 0) by (nonlinear_arith)
                requires
                    d == 0,
            ;
            !self.negative || fraction_is_zero
        } else if class == 1 {
            assert(d * p == p) by (nonlinear_arith)
                requires
                    d == 1,
            ;
            !self.negative && fraction_is_zero
        } else {
            assert(d * p >= 2 * p) by (nonlinear_arith)
                requires
                    d >= 2,
                    p >= 1,
            ;
            false
        }
    }

    /// The number without its fraction, limited to the range of `i32`.
    pub fn to_i32(&self) -> (n: i32)
        ensures
            n == clamp_i32(self@.truncated()),
    {
        proof {
            use_type_invariant(self);
        }
        let limit: i64 = 2147483648;
        let mut acc: i64 = 0;
        let mut i: usize = 0;
        while i < self.integer.len()
            invariant
                i <= self.integer@.len(),
                all_digits(self.integer@),
                limit == 2147483648,
                0 <= acc <= limit,
                acc < limit ==> acc == digits_value(self.integer@.take(i as int)),
                acc == limit ==> digits_value(self.integer@.take(i as int)) >= limit,
            decreases self.integer@.len() - i,
        {
            let c = self.integer[i];
            let ghost before = self.integer@.take(i as int);
            let ghost after = self.integer@.take(i + 1);
            proof {
                assert(after.drop_last() =~= before);
                assert(after.last() == c);
                assert(ascii_digit(self.integer@[i as int]));
            }
            let digit: i64 = digit_of(c);
            if acc < limit {
                let next: i64 = acc * 10 + digit;
                if next > limit {
                    acc = limit;
                } else {
                    acc = next;
                }
            } else {
                assert(digits_value(after) >= limit) by (nonlinear_arith)
                    requires
                        digits_value(after) == digits_value(before) * 10 + digit_value(c),
                        digits_value(before) >= limit,
                        0 <= digit_value(c),
                        limit > 0,
                ;
            }
            i += 1;
        }
        assert(self.integer@.take(i as int) =~= self.integer@);
        if self.negative {
            if acc >= limit {
                i32::MIN
            } else {
                (0 - acc) as i32
            }
        } else {
            if acc >= limit {
                i32::MAX
            } else {
                acc as i32
            }
        }
    }

    /// The number as it is written.
    pub fn to_string(&self) -> (s: String)
        ensures
            s@ == self@.lexeme(),
    {
        let mut out = String::new();
        if self.negative {
            out.push('-');
        }
        let ghost sign = out@;
        let mut i: usize = 0;
        while i < self.integer.len()
            invariant
                i <= self.integer@.len(),
                out@ == sign + self.integer@.take(i as int),
            decreases self.integer@.len() - i,
        {
            out.push(self.integer[i]);
            i += 1;
            assert(self.integer@.take(i as int) =~= self.integer@.take(i - 1).push(
                self.integer@[i - 1],
            ));
            assert(out@ =~= sign + self.integer@.take(i as int));
        }
        assert(self.integer@.take(i as int) =~= self.integer@);
        if self.fraction.len() > 0 {
            out.push('.');
            let ghost head = out@;
            let mut j: usize = 0;
            while j < self.fraction.len()
                invariant
                    j <= self.fraction@.len(),
                    out@ == head + self.fraction@.take(j as int),
                decreases self.fraction@.len() - j,
            {
                out.push(self.fraction[j]);
                j += 1;
                assert(self.fraction@.take(j as int) =~= self.fraction@.take(j - 1).push(
                    self.fraction@[j - 1],
                ));
                assert(out@ =~= head + self.fraction@.take(j as int));
            }
            assert(self.fraction@.take(j as int) =~= self.fraction@);
            assert(out@ =~= self@.lexeme());
        } else {
            assert(out@ =~= self@.lexeme());
        }
        out
    }
}

impl Clone for Decimal {
    fn clone(&self) -> (d: Decimal)
        ensures
            d@ == self@,
    {
        self.duplicate()
    }
}

/// A copy of a vector of characters.
pub fn copy_chars(v: &Vec<char>) -> (r: Vec<char>)
    ensures
        r@ == v@,
{
    let mut out: Vec<char> = Vec::new();
    let mut i: usize = 0;
    while i < v.len()
        invariant
            i <= v@.len(),
            out@ == v@.take(i as int),
        decreases v@.len() - i,
    {
        out.push(v[i]);
        i += 1;
        assert(v@.take(i as int) =~= v@.take(i - 1).push(v@[i - 1]));
    }
    assert(v@.take(i as int) =~= v@);
    out
}

/// The value of an ASCII digit.
pub fn digit_of(c: char) -> (d: i64)
    requires
        ascii_digit(c),
    ensures
        d == digit_value(c),
        0 <= d <= 9,
{
    (c as u32 - '0' as u32) as i64
}

/// Whether every character is the digit zero.
pub fn only_zeros(v: &Vec<char>) -> (b: bool)
    ensures
        b == all_zeros(v@),
{
    let mut i: usize = 0;
    while i < v.len()
        invariant
            i <= v@.len(),
            forall|j: int| 0 <= j < i ==> #[trigger] v@[j] == '0',
        decreases v@.len() - i,
    {
        if v[i] != '0' {
            return false;
        }
        i += 1;
    }
    true
}

/// Sorts a run of digits by the number it spells: 0 for zero, 1 for one and
/// 2 for anything greater.
fn leading_class(v: &Vec<char>) -> (class: u8)
    requires
        all_digits(v@),
    ensures
        class == 0 ==> digits_value(v@) == 0,
        class == 1 ==> digits_value(v@) == 1,
        class != 0 && class != 1 ==> digits_value(v@) >= 2,
{
    let mut class: u8 = 0;
    let mut i: usize = 0;
    while i < v.len()
        invariant
            i <= v@.len(),
            all_digits(v@),
            class <= 2,
            class == 0 ==> digits_value(v@.take(i as int)) == 0,
            class == 1 ==> digits_value(v@.take(i as int)) == 1,
            class == 2 ==> digits_value(v@.take(i as int)) >= 2,
        decreases v@.len() - i,
    {
        let c = v[i];
        proof {
            let before = v@.take(i as int);
            let after = v@.take(i + 1);
            assert(after.drop_last() =~= before);
            assert(after.last() == c);
            assert(ascii_digit(v@[i as int]));
        }
        if class == 0 {
            if c == '0' {
                class = 0;
            } else if c == '1' {
                class = 1;
            } else {
                class = 2;
            }
        } else {
            class = 2;
        }
        i += 1;
    }
    assert(v@.take(i as int) =~= v@);
    class
}

/// The smaller of two numbers.
pub open spec fn smaller(a: int, b: int) -> int {
    if a <= b {
        a
    } else {
        b
    }
}

/// Whether every character of `text[from..to]` is a digit.
pub fn digits_only(text: &[char], from: usize, to: usize) -> (b: bool)
    requires
        from <= to <= text@.len(),
    ensures
        b == all_digits(text@.subrange(from as int, to as int)),
{
    let mut i: usize = from;
    while i < to
        invariant
            from <= i <= to <= text@.len(),
            forall|j: int| from <= j < i ==> ascii_digit(#[trigger] text@[j]),
        decreases to - i,
    {
        if !('0' <= text[i] && text[i] <= '9') {
            assert(!ascii_digit(text@.subrange(from as int, to as int)[i - from]));
            return false;
        }
        i += 1;
    }
    assert forall|j: int| 0 <= j < to - from implies ascii_digit(
        #[trigger] text@.subrange(from as int, to as int)[j],
    ) by {
        assert(ascii_digit(text@[from + j]));
    }
    true
}

/// The number that the digits `text[from..to]` spell, or `cap` where it is
/// greater than that.
pub fn capped_value(text: &[char], from: usize, to: usize, cap: u128) -> (r: u128)
    requires
        from <= to <= text@.len(),
        all_digits(text@.subrange(from as int, to as int)),
        cap <= 0x1_0000_0000_0000_0000_0000,
    ensures
        r == smaller(digits_value(text@.subrange(from as int, to as int)), cap as int),
{
    let ghost digits = text@.subrange(from as int, to as int);
    let mut acc: u128 = 0;
    let mut i: usize = from;
    while i < to
        invariant
            from <= i <= to <= text@.len(),
            digits == text@.subrange(from as int, to as int),
            all_digits(digits),
            cap <= 0x1_0000_0000_0000_0000_0000,
            acc == smaller(digits_value(digits.take(i - from)), cap as int),
            0 <= digits_value(digits.take(i - from)),
        decreases to - i,
    {
        let c = text[i];
        let ghost before = digits.take(i - from);
        let ghost after = digits.take(i - from + 1);
        proof {
            assert(after.drop_last() =~= before);
            assert(after.last() == c);
            assert(ascii_digit(digits[i - from]));
            assert(digits_value(after) == digits_value(before) * 10 + digit_value(c));
        }
        let digit: u128 = (c as u32 - '0' as u32) as u128;
        if acc < cap {
            let next: u128 = acc * 10 + digit;
            acc = if next > cap {
                cap
            } else {
                next
            };
        }
        i += 1;
    }
    assert(digits.take(to - from) =~= digits);
    acc
}

/// The integer that a text spells: an optional sign `+` or `-` and at least
/// one digit, nothing else, with a value in the range of `i64`.
pub open spec fn integer_of(s: Seq<char>) -> Option<i64> {
    let signed = s.len() > 0 && (s[0] == '-' || s[0] == '+');
    let digits = if signed {
        s.subrange(1, s.len() as int)
    } else {
        s
    };
    let value = if s.len() > 0 && s[0] == '-' {
        -digits_value(digits)
    } else {
        digits_value(digits)
    };
    if digits.len() > 0 && all_digits(digits) && i64::MIN <= value <= i64::MAX {
        Some(value as i64)
    } else {
        None
    }
}

/// Reads a signed integer that fills the whole text.
pub fn parse_integer(text: &[char]) -> (r: Option<i64>)
    ensures
        r == integer_of(text@),
{
    let n = text.len();
    if n == 0 {
        return None;
    }
    let negative = text[0] == '-';
    let start: usize = if negative || text[0] == '+' {
        1
    } else {
        0
    };
    assert(text@.subrange(0, n as int) == text@);
    if start == n || !digits_only(text, start, n) {
        return None;
    }
    let magnitude = capped_value(text, start, n, 9223372036854775809);
    if negative {
        if magnitude > 9223372036854775808 {
            None
        } else {
            Some((0 - magnitude as i128) as i64)
        }
    } else {
        if magnitude > 9223372036854775807 {
            None
        } else {
            Some(magnitude as i64)
        }
    }
}

} // verus!
