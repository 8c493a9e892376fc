//! The arbitrary-precision decimal numbers that the evaluator works with,
//! taken from `num_bigfloat`. Verus sees a `BigFloat` as an opaque value; each
//! operation the evaluator uses is named here by what it returns.

use num_bigfloat::BigFloat;
use vstd::prelude::*;

verus! {

#[verifier::external_type_specification]
#[verifier::external_body]
pub struct ExBigFloat(BigFloat);

/// What `BigFloat::parse` returns for a text.
pub uninterp spec fn parsed(s: Seq<char>) -> Option<BigFloat>;

/// What `BigFloat::add` returns.
pub uninterp spec fn sum_of(a: BigFloat, b: BigFloat) -> BigFloat;

/// What `BigFloat::sub` returns.
pub uninterp spec fn difference_of(a: BigFloat, b: BigFloat) -> BigFloat;

/// What `BigFloat::mul` returns.
pub uninterp spec fn product_of(a: BigFloat, b: BigFloat) -> BigFloat;

/// What `BigFloat::div` returns.
pub uninterp spec fn quotient_of(a: BigFloat, b: BigFloat) -> BigFloat;

/// What `BigFloat::is_zero` returns.
pub uninterp spec fn zero_of(a: BigFloat) -> bool;

/// The text that `BigFloat`'s `Display` writes.
pub uninterp spec fn rendered(a: BigFloat) -> Seq<char>;

/// A decimal digit.
pub open spec fn is_digit(c: char) -> bool {
    '0' <= c && c <= '9'
}

/// The length of the run of digits that starts at `i`.
pub open spec fn digit_run(s: Seq<char>, i: int) -> nat
    decreases s.len() - i,
{
    if 0 <= i < s.len() && is_digit(s[i]) {
        1 + digit_run(s, i + 1)
    } else {
        0
    }
}

/// Where the digits of an exponent that starts at `i` begin: after its
/// sign, if it has one.
pub open spec fn after_sign(s: Seq<char>, i: int) -> int {
    if 0 <= i < s.len() && (s[i] == '+' || s[i] == '-') {
        i + 1
    } else {
        i
    }
}

/// Every exponent marker in `s` is followed by at most nine digits.
pub open spec fn exponents_bounded(s: Seq<char>) -> bool {
    forall|i: int|
        0 <= i < s.len() && (s[i] == 'e' || s[i] == 'E') ==> digit_run(s, after_sign(s, i + 1))
            <= 9
}

/// The texts the parser takes without overflowing its exponent: under a
/// thousand million characters, and no exponent of more than nine digits.
pub open spec fn parse_admissible(s: Seq<char>) -> bool {
    s.len() < 1_000_000_000 && exponents_bounded(s)
}

/// Relies on `BigFloat::parse`: `None` where the text is no number, and a
/// result that depends on the text alone. Its exponent arithmetic is in
/// `i32`, so the texts it is given are kept to those it takes without
/// overflow.
#[verifier::external_body]
pub(crate) fn parse_decimal(s: &str) -> (r: Option<BigFloat>)
    requires
        parse_admissible(s@),
    ensures
        r == parsed(s@),
{
    BigFloat::parse(s)
}

/// Relies on `BigFloat::add`, a function of its two operands.
#[verifier::external_body]
pub(crate) fn add_decimal(a: &BigFloat, b: &BigFloat) -> (r: BigFloat)
    ensures
        r == sum_of(*a, *b),
{
    a.add(b)
}

/// Relies on `BigFloat::sub`, a function of its two operands.
#[verifier::external_body]
pub(crate) fn sub_decimal(a: &BigFloat, b: &BigFloat) -> (r: BigFloat)
    ensures
        r == difference_of(*a, *b),
{
    a.sub(b)
}

/// Relies on `BigFloat::mul`, a function of its two operands.
#[verifier::external_body]
pub(crate) fn mul_decimal(a: &BigFloat, b: &BigFloat) -> (r: BigFloat)
    ensures
        r == product_of(*a, *b),
{
    a.mul(b)
}

/// Relies on `BigFloat::div`, a function of its two operands.
#[verifier::external_body]
pub(crate) fn div_decimal(a: &BigFloat, b: &BigFloat) -> (r: BigFloat)
    ensures
        r == quotient_of(*a, *b),
{
    a.div(b)
}

/// Relies on `BigFloat::is_zero`, a function of its operand.
#[verifier::external_body]
pub(crate) fn is_zero_decimal(a: &BigFloat) -> (r: bool)
    ensures
        r == zero_of(*a),
{
    a.is_zero()
}

/// Relies on `BigFloat`'s `Display`, which writes a text that depends on the
/// value alone.
#[verifier::external_body]
pub(crate) fn render_decimal(a: &BigFloat) -> (r: String)
    ensures
        r@ == rendered(*a),
{
    a.to_string()
}

/// The number of decimal points in a text.
pub open spec fn points(s: Seq<char>) -> nat
    decreases s.len(),
{
    if s.len() == 0 {
        0
    } else {
        points(s.drop_last()) + if s.last() == '.' {
            1nat
        } else {
            0nat
        }
    }
}

/// The number of decimal digits in a text.
pub open spec fn digits(s: Seq<char>) -> nat
    decreases s.len(),
{
    if s.len() == 0 {
        0
    } else {
        digits(s.drop_last()) + if is_digit(s.last()) {
            1nat
        } else {
            0nat
        }
    }
}

/// The number a text stands for. A text without a digit, with two or more
/// decimal points, or outside what the parser takes is none; any other is
/// what the parser makes of it.
pub open spec fn number_of(s: Seq<char>) -> Option<BigFloat> {
    if digits(s) >= 1 && points(s) <= 1 && parse_admissible(s) {
        parsed(s)
    } else {
        None
    }
}

fn is_digit_char(c: char) -> (r: bool)
    ensures
        r == is_digit(c),
{
    '0' <= c && c <= '9'
}

/// Whether every exponent marker in `s` is followed by at most nine digits.
fn exponents_bounded_text(s: &str) -> (r: bool)
    ensures
        r == exponents_bounded(s@),
{
    let n = s.unicode_len();
    let mut k: usize = 0;
    while k < n
        invariant
            n == s@.len(),
            k <= n,
            forall|i: int|
                0 <= i < k && (s@[i] == 'e' || s@[i] == 'E') ==> digit_run(
                    s@,
                    after_sign(s@, i + 1),
                ) <= 9,
        decreases n - k,
    {
        let c = s.get_char(k);
        if c == 'e' || c == 'E' {
            let mut j: usize = k + 1;
            if j < n {
                let sign = s.get_char(j);
                if sign == '+' || sign == '-' {
                    j = j + 1;
                }
            }
            assert(j as int == after_sign(s@, k + 1));
            let mut m: usize = j;
            while m < n && m - j < 10 && is_digit_char(s.get_char(m))
                invariant
                    n == s@.len(),
                    j <= m <= n,
                    m - j <= 10,
                    digit_run(s@, j as int) == (m - j) + digit_run(s@, m as int),
                decreases n - m,
            {
                m = m + 1;
            }
            if m - j >= 10 {
                return false;
            }
        }
        k = k + 1;
    }
    true
}

/// Reads a number from its text; a text without a digit, with two or more
/// decimal points, or that the parser does not take is no number.
pub fn read_number(s: &str) -> (r: Option<BigFloat>)
    ensures
        r == number_of(s@),
{
    let n = s.unicode_len();
    let mut count: usize = 0;
    let mut digit_count: usize = 0;
    let mut k: usize = 0;
    while k < n
        invariant
            n == s@.len(),
            k <= n,
            count <= k,
            digit_count <= k,
            count == points(s@.take(k as int)),
            digit_count == digits(s@.take(k as int)),
        decreases n - k,
    {
        proof {
            assert(s@.take(k + 1).drop_last() =~= s@.take(k as int));
        }
        let c = s.get_char(k);
        if c == '.' {
            count = count + 1;
        }
        if is_digit_char(c) {
            digit_count = digit_count + 1;
        }
        k = k + 1;
    }
    proof {
        assert(s@.take(n as int) =~= s@);
    }
    if digit_count >= 1 && count <= 1 && n < 1_000_000_000 && exponents_bounded_text(s) {
        parse_decimal(s)
    } else {
        None
    }
}

/// Reads an optional text as a number; no text gives no number.
pub fn try_parse(input: Option<String>) -> (r: Option<BigFloat>)
    ensures
        r == match input {
            Some(s) => number_of(s@),
            None => None,
        },
{
    match input {
        Some(s) => read_number(s.as_str()),
        None => None,
    }
}

} // verus!
