//! Numeric literals: the value of a decimal lexeme, and real numbers kept as
//! exact decimals.

use vstd::prelude::*;
use vstd::string::StringExecFns;
use crate::chars::is_digit;

verus! {

/// Whether every character of `s` is an ASCII digit.
pub open spec fn all_digits(s: Seq<char>) -> bool {
    forall|i: int| 0 <= i < s.len() ==> is_digit(#[trigger] s[i])
}

/// The number that the digit `c` stands for.
pub open spec fn digit_value(c: char) -> int {
    c as int - '0' as int
}

/// The number that a run of decimal digits denotes; the empty run denotes 0.
pub open spec fn decimal_value(s: Seq<char>) -> int
    decreases s.len(),
{
    if s.len() == 0 {
        0
    } else {
        decimal_value(s.drop_last()) * 10 + digit_value(s.last())
    }
}

/// Whether `s` has the shape of an integer lexeme: an optional minus sign and
/// then at least one digit.
pub open spec fn is_integer_lexeme(s: Seq<char>) -> bool {
    if s.len() > 0 && s[0] == '-' {
        s.len() > 1 && all_digits(s.skip(1))
    } else {
        s.len() > 0 && all_digits(s)
    }
}

/// The number that an integer lexeme denotes.
pub open spec fn integer_value(s: Seq<char>) -> int {
    if s.len() > 0 && s[0] == '-' {
        -decimal_value(s.skip(1))
    } else {
        decimal_value(s)
    }
}

/// The 64-bit signed integer nearest to `v`.
pub open spec fn saturate(v: int) -> i64 {
    if v < i64::MIN {
        i64::MIN
    } else if v > i64::MAX {
        i64::MAX
    } else {
        v as i64
    }
}

/// Ten to the power of `n`.
pub open spec fn power_of_ten(n: nat) -> int
    decreases n,
{
    if n == 0 {
        1
    } else {
        10 * power_of_ten((n - 1) as nat)
    }
}

/// Digits written behind other digits shift those by as many places as they
/// are themselves: `a` followed by `b` denotes `a * 10^len(b) + b`.
pub proof fn lemma_decimal_value_concat(a: Seq<char>, b: Seq<char>)
    ensures
        decimal_value(a + b) == decimal_value(a) * power_of_ten(b.len()) + decimal_value(b),
    decreases b.len(),
{
    if b.len() == 0 {
        assert(a + b =~= a);
    } else {
        assert((a + b).drop_last() =~= a + b.drop_last());
        assert((a + b).last() == b.last());
        lemma_decimal_value_concat(a, b.drop_last());
        let high = decimal_value(a);
        let shift = power_of_ten(b.drop_last().len());
        let low = decimal_value(b.drop_last());
        let digit = digit_value(b.last());
        assert(power_of_ten(b.len()) == 10 * shift);
        assert((high * shift + low) * 10 + digit == high * (10 * shift) + (low * 10 + digit))
            by (nonlinear_arith);
    }
}

/// Reads the integer lexeme `text[from..to]`. A value beyond the 64-bit signed
/// range comes out as the nearest bound.
pub fn integer_from_digits(text: &Vec<char>, from: usize, to: usize) -> (v: i64)
    requires
        from <= to <= text.len(),
        is_integer_lexeme(text@.subrange(from as int, to as int)),
    ensures
        v == saturate(integer_value(text@.subrange(from as int, to as int))),
{
    let ghost lexeme = text@.subrange(from as int, to as int);
    let negative = text[from] == '-';
    let start: usize = if negative { from + 1 } else { from };
    let ghost digits = text@.subrange(start as int, to as int);
    assert(lexeme[0] == text@[from as int]);
    assert(digits =~= if negative { lexeme.skip(1) } else { lexeme });
    let mut magnitude: u64 = 0;
    let mut beyond = false;
    let mut i: usize = start;
    while i < to
        invariant
            start <= i <= to <= text.len(),
            digits == text@.subrange(start as int, to as int),
            all_digits(digits),
            magnitude <= 0x8000_0000_0000_0000,
            !beyond ==> magnitude == decimal_value(text@.subrange(start as int, i as int)),
            beyond ==> decimal_value(text@.subrange(start as int, i as int))
                > 0x8000_0000_0000_0000,
        decreases to - i,
    {
        let c = text[i];
        let ghost before = text@.subrange(start as int, i as int);
        let ghost after = text@.subrange(start as int, i as int + 1);
        assert(after.drop_last() =~= before);
        assert(after.last() == c);
        assert(c == digits[i - start]);
        assert(is_digit(c));
        let digit: u64 = (c as u32 - '0' as u32) as u64;
        assert(digit == digit_value(c));
        assert(decimal_value(after) == decimal_value(before) * 10 + digit);
        if !beyond {
            if magnitude > (0x8000_0000_0000_0000 - digit) / 10 {
                beyond = true;
            } else {
                magnitude = magnitude * 10 + digit;
            }
        }
        i = i + 1;
    }
    assert(text@.subrange(start as int, i as int) == digits);
    if negative {
        if beyond || magnitude == 0x8000_0000_0000_0000 {
            i64::MIN
        } else {
            -(magnitude as i64)
        }
    } else {
        if beyond || magnitude == 0x8000_0000_0000_0000 {
            i64::MAX
        } else {
            magnitude as i64
        }
    }
}

/// A real number written as a decimal: a sign, the digits before the point
/// and the digits after it, kept as written.
#[derive(Debug)]
pub struct Decimal {
    pub negative: bool,
    pub whole: String,
    pub fraction: String,
}

/// What a [`Decimal`] holds, as plain sequences of characters.
pub struct DecimalView {
    pub negative: bool,
    pub whole: Seq<char>,
    pub fraction: Seq<char>,
}

impl DecimalView {
    /// Digits stand on both sides of the point, and nothing but digits.
    pub open spec fn wf(self) -> bool {
        &&& self.whole.len() > 0
        &&& self.fraction.len() > 0
        &&& all_digits(self.whole)
        &&& all_digits(self.fraction)
    }

    /// The number with its point removed: the value is
    /// `mantissa() / 10^scale()`.
    pub open spec fn mantissa(self) -> int {
        if self.negative {
            -decimal_value(self.whole + self.fraction)
        } else {
            decimal_value(self.whole + self.fraction)
        }
    }

    /// How many digits follow the point.
    pub open spec fn scale(self) -> nat {
        self.fraction.len()
    }

    /// The mantissa is the whole part shifted by `scale()` places, plus the
    /// fraction's digits, with the sign of the number: the number is its whole
    /// part plus its fraction's digits over `10^scale()`.
    pub proof fn lemma_mantissa_splits(self)
        ensures
            self.mantissa() == (if self.negative {
                -(decimal_value(self.whole) * power_of_ten(self.scale()) + decimal_value(
                    self.fraction,
                ))
            } else {
                decimal_value(self.whole) * power_of_ten(self.scale()) + decimal_value(
                    self.fraction,
                )
            }),
    {
        lemma_decimal_value_concat(self.whole, self.fraction);
    }

    /// The number as it is written.
    pub open spec fn text(self) -> Seq<char> {
        (if self.negative {
            seq!['-']
        } else {
            Seq::<char>::empty()
        }) + self.whole + seq!['.'] + self.fraction
    }
}

impl View for Decimal {
    type V = DecimalView;

    open spec fn view(&self) -> DecimalView {
        DecimalView { negative: self.negative, whole: self.whole@, fraction: self.fraction@ }
    }
}

impl Clone for Decimal {
    fn clone(&self) -> (r: Self)
        ensures
            r == *self,
    {
        Decimal {
            negative: self.negative,
            whole: self.whole.clone(),
            fraction: self.fraction.clone(),
        }
    }
}

impl PartialEq for Decimal {
    /// Two decimals are equal when they are written alike.
    fn eq(&self, other: &Self) -> (r: bool) {
        self.negative == other.negative && self.whole == other.whole && self.fraction
            == other.fraction
    }
}

impl vstd::std_specs::cmp::PartialEqSpecImpl for Decimal {
    open spec fn obeys_eq_spec() -> bool {
        true
    }

    open spec fn eq_spec(&self, other: &Self) -> bool {
        self@ == other@
    }
}

impl Decimal {
    /// The number as it is written, with a leading `-` where it is negative.
    pub fn to_text(&self) -> (s: String)
        ensures
            s@ == self@.text(),
    {
        let mut s = String::new();
        if self.negative {
            s.push('-');
        }
        s.append(self.whole.as_str());
        s.push('.');
        s.append(self.fraction.as_str());
        assert(s@ =~= self@.text());
        s
    }
}

} // verus!
