//! The postfix evaluator: reduces a postfix token sequence to one number with
//! an operand stack of numeric text.

use crate::decimal::{
    add_decimal, difference_of, div_decimal, is_zero_decimal, mul_decimal, number_of, read_number,
    product_of, quotient_of, render_decimal, rendered, sub_decimal, sum_of, zero_of,
};
use crate::token::{views, Operator, Token, TokenView};
use num_bigfloat::BigFloat;
use vstd::prelude::*;

verus! {

/// Why an expression has no value.
#[derive(Clone, Copy, Debug, PartialEq, Eq, Structural)]
pub enum CalcError {
    /// The expression is empty or malformed: an operator lacks operands, a
    /// number does not parse, or a token has no place in postfix order.
    Invalid,
    /// A division's right operand is zero.
    DivisionByZero,
}

/// Applies a binary operator to two numbers.
pub open spec fn apply(op: Operator, a: BigFloat, b: BigFloat) -> Result<BigFloat, CalcError> {
    match op {
        Operator::Plus => Ok(sum_of(a, b)),
        Operator::Minus => Ok(difference_of(a, b)),
        Operator::Times => Ok(product_of(a, b)),
        Operator::Divide => if zero_of(b) {
            Err(CalcError::DivisionByZero)
        } else {
            Ok(quotient_of(a, b))
        },
        _ => Err(CalcError::Invalid),
    }
}

/// The value of the texts left on the stack: its sole entry, read as a
/// number. An empty stack, or one with values left over, is malformed.
pub open spec fn final_value(stack: Seq<Seq<char>>) -> Result<BigFloat, CalcError> {
    if stack.len() != 1 {
        Err(CalcError::Invalid)
    } else {
        match number_of(stack.last()) {
            Some(v) => Ok(v),
            None => Err(CalcError::Invalid),
        }
    }
}

/// Evaluates the postfix tokens from position `i` on, over an operand stack
/// of texts. A number is pushed; a binary operator pops its right and then
/// its left operand, reads both as numbers, and pushes the text of the result.
pub open spec fn eval_from(ts: Seq<TokenView>, i: int, stack: Seq<Seq<char>>) -> Result<
    BigFloat,
    CalcError,
>
    decreases ts.len() - i,
{
    if 0 <= i < ts.len() {
        match ts[i] {
            TokenView::Number(s) => eval_from(ts, i + 1, stack.push(s)),
            TokenView::Negation => Err(CalcError::Invalid),
            TokenView::Op(op) => {
                if stack.len() < 2 {
                    Err(CalcError::Invalid)
                } else {
                    let n = stack.len();
                    match (number_of(stack[n - 2]), number_of(stack[n - 1])) {
                        (Some(a), Some(b)) => match apply(op, a, b) {
                            Ok(v) => eval_from(ts, i + 1, stack.take(n - 2).push(rendered(v))),
                            Err(e) => Err(e),
                        },
                        _ => Err(CalcError::Invalid),
                    }
                }
            },
        }
    } else {
        final_value(stack)
    }
}

/// The value of a postfix sequence.
pub open spec fn eval(ts: Seq<TokenView>) -> Result<BigFloat, CalcError> {
    eval_from(ts, 0, seq![])
}

/// The texts a stack of strings holds.
pub open spec fn texts(v: Seq<String>) -> Seq<Seq<char>> {
    v.map_values(|s: String| s@)
}

fn apply_operator(op: Operator, a: &BigFloat, b: &BigFloat) -> (r: Result<BigFloat, CalcError>)
    ensures
        r == apply(op, *a, *b),
{
    match op {
        Operator::Plus => Ok(add_decimal(a, b)),
        Operator::Minus => Ok(sub_decimal(a, b)),
        Operator::Times => Ok(mul_decimal(a, b)),
        Operator::Divide => {
            if is_zero_decimal(b) {
                Err(CalcError::DivisionByZero)
            } else {
                Ok(div_decimal(a, b))
            }
        },
        _ => Err(CalcError::Invalid),
    }
}

/// Evaluates a postfix token sequence.
pub fn solve_postfix(tokens: Vec<Token>) -> (r: Result<BigFloat, CalcError>)
    ensures
        r == eval(views(tokens@)),
{
    let ghost ts = views(tokens@);
    let mut stack: Vec<String> = Vec::new();
    let mut i: usize = 0;
    proof {
        assert(texts(stack@) =~= seq![]);
    }
    while i < tokens.len()
        invariant
            ts == views(tokens@),
            i <= tokens.len(),
            eval_from(ts, i as int, texts(stack@)) == eval(ts),
        decreases tokens.len() - i,
    {
        let ghost st = texts(stack@);
        match &tokens[i] {
            Token::Number(s) => {
                stack.push(s.clone());
                proof {
                    assert(texts(stack@) =~= st.push(s@));
                }
            },
            Token::NegationMarker => {
                return Err(CalcError::Invalid);
            },
            Token::Op(op) => {
                if stack.len() < 2 {
                    return Err(CalcError::Invalid);
                }
                let right = stack.pop().unwrap();
                let left = stack.pop().unwrap();
                proof {
                    assert(right@ == st[st.len() - 1]);
                    assert(left@ == st[st.len() - 2]);
                    assert(texts(stack@) =~= st.take(st.len() - 2));
                }
                let b = match read_number(right.as_str()) {
                    Some(v) => v,
                    None => {
                        return Err(CalcError::Invalid);
                    },
                };
                let a = match read_number(left.as_str()) {
                    Some(v) => v,
                    None => {
                        return Err(CalcError::Invalid);
                    },
                };
                match apply_operator(*op, &a, &b) {
                    Ok(v) => {
                        let ghost below = texts(stack@);
                        stack.push(render_decimal(&v));
                        proof {
                            assert(texts(stack@) =~= below.push(rendered(v)));
                        }
                    },
                    Err(e) => {
                        return Err(e);
                    },
                }
            },
        }
        i = i + 1;
    }
    if stack.len() != 1 {
        return Err(CalcError::Invalid);
    }
    match stack.pop() {
        Some(top) => read_number(top.as_str()).ok_or(CalcError::Invalid),
        None => Err(CalcError::Invalid),
    }
}

} // verus!
