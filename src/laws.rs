//! Properties of the whole pipeline, stated over the spec functions that the
//! stages' contracts use.

use crate::calculator::expression_value;
use crate::decimal::{digits, is_digit, number_of, zero_of};
use crate::evaluator::{eval, eval_from, final_value, CalcError};
use crate::lexer::{is_operand, lex, lex_from, run_from};
use crate::negation::{negated, resolve, resolve_from};
use crate::postfix::{postfix_of, shunt, shunt_from, unwind};
use crate::token::precedence;
use crate::token::{operator_of, Operator, TokenView};
use vstd::prelude::*;

verus! {

/// The digits and points of a number text, after its minus sign if it has
/// one.
pub open spec fn unsigned_part(s: Seq<char>) -> Seq<char> {
    if s.len() > 0 && s[0] == '-' {
        s.drop_first()
    } else {
        s
    }
}

/// A number as it is written: digits and points, at least one, with at most
/// a minus sign before them.
pub open spec fn is_plain_number(s: Seq<char>) -> bool {
    let d = unsigned_part(s);
    d.len() > 0 && forall|k: int| 0 <= k < d.len() ==> is_operand(#[trigger] d[k])
}

proof fn lemma_run_to_end(s: Seq<char>, i: int)
    requires
        0 <= i <= s.len(),
        forall|k: int| i <= k < s.len() ==> is_operand(#[trigger] s[k]),
    ensures
        run_from(s, i) == s.len() - i,
    decreases s.len() - i,
{
    if i < s.len() {
        lemma_run_to_end(s, i + 1);
    }
}

proof fn lemma_lex_number(s: Seq<char>, i: int, unary: bool)
    requires
        0 <= i < s.len(),
        forall|k: int| i <= k < s.len() ==> is_operand(#[trigger] s[k]),
    ensures
        lex_from(s, i, unary) == seq![TokenView::Number(s.subrange(i, s.len() as int))],
{
    lemma_run_to_end(s, i + 1);
    assert(lex_from(s, s.len() as int, false) == Seq::<TokenView>::empty());
    assert(seq![TokenView::Number(s.subrange(i, s.len() as int))] + Seq::<TokenView>::empty()
        =~= seq![TokenView::Number(s.subrange(i, s.len() as int))]);
}

/// The one-token expression made of a number text is that number alone: the
/// pipeline gives what reading the text as a number gives. So a result
/// whose rendering has no exponent, typed back in as an expression, is read
/// as the same text the evaluator's operand stack would hold for it. A
/// rendering with an exponent (`1.4e+1` for fourteen) is no such text: its
/// `+` or `-` splits it into two numbers and an operator.
pub proof fn lemma_number_text_evaluates_to_itself(s: Seq<char>)
    requires
        is_plain_number(s),
    ensures
        expression_value(s) == match number_of(s) {
            Some(v) => Ok(v),
            None => Err(CalcError::Invalid),
        },
{
    let number = seq![TokenView::Number(s)];
    if s.len() > 0 && s[0] == '-' {
        assert forall|k: int| 1 <= k < s.len() implies is_operand(#[trigger] s[k]) by {
            assert(unsigned_part(s)[k - 1] == s[k]);
        }
        lemma_lex_number(s, 1, false);
        let lexed = seq![TokenView::Negation, TokenView::Number(s.subrange(1, s.len() as int))];
        assert(lex(s) =~= lexed);
        assert(resolve_from(lexed, 2) == Some(Seq::<TokenView>::empty()));
        assert(negated(lexed[1]) =~= s);
        assert(resolve(lexed) == Some(number + Seq::<TokenView>::empty()));
        assert(number + Seq::<TokenView>::empty() =~= number);
    } else {
        lemma_lex_number(s, 0, true);
        assert(s.subrange(0, s.len() as int) =~= s);
        assert(resolve_from(number, 1) == Some(Seq::<TokenView>::empty()));
        assert(resolve(number) == Some(number + Seq::<TokenView>::empty()));
        assert(number + Seq::<TokenView>::empty() =~= number);
    }
    assert(resolve(lex(s)) == Some(number));
    let ts = number.push(TokenView::Op(Operator::Close));
    let open = seq![TokenView::Op(Operator::Open)];
    let out = seq![TokenView::Number(s)];
    assert(shunt(ts[0], open, seq![]) == (open, out));
    assert(open.drop_last() =~= Seq::<TokenView>::empty());
    assert(unwind(Seq::<TokenView>::empty(), out, 0) == (Seq::<TokenView>::empty(), out));
    assert(unwind(open, out, 0) == (Seq::<TokenView>::empty(), out));
    assert(shunt(ts[1], open, out).1 == out);
    let after = shunt(ts[1], open, out).0;
    assert(shunt_from(ts, 2, after, out) == out);
    assert(shunt_from(ts, 1, open, out) == shunt_from(ts, 2, after, out));
    assert(shunt_from(ts, 0, open, seq![]) == shunt_from(ts, 1, open, out));
    assert(postfix_of(number) == out);
    assert(eval_from(out, 1, seq![s]) == final_value(seq![s]));
    assert(seq![s] =~= Seq::<Seq<char>>::empty().push(s));
    assert(eval(out) == final_value(seq![s]));
}

/// A text with no decimal digit.
pub open spec fn digitless(x: Seq<char>) -> bool {
    forall|k: int| 0 <= k < x.len() ==> !is_digit(#[trigger] x[k])
}

/// Every number token of `ts` has a digitless text.
pub open spec fn digitless_numbers(ts: Seq<TokenView>) -> bool {
    forall|k: int|
        0 <= k < ts.len() && (#[trigger] ts[k]) is Number ==> digitless(ts[k]->Number_0)
}

proof fn lemma_digitless_has_no_digits(x: Seq<char>)
    requires
        digitless(x),
    ensures
        digits(x) == 0,
    decreases x.len(),
{
    if x.len() > 0 {
        assert(digitless(x.drop_last()));
        lemma_digitless_has_no_digits(x.drop_last());
    }
}

proof fn lemma_cons(t: TokenView, rest: Seq<TokenView>)
    requires
        t is Number ==> digitless(t->Number_0),
        digitless_numbers(rest),
    ensures
        digitless_numbers(seq![t] + rest),
        digitless_numbers(rest.push(t)),
{
    assert forall|k: int|
        0 <= k < (seq![t] + rest).len() && (#[trigger] (seq![t] + rest)[k]) is Number implies digitless(
        (seq![t] + rest)[k]->Number_0) by {
        if k > 0 {
            assert((seq![t] + rest)[k] == rest[k - 1]);
        }
    }
    assert forall|k: int|
        0 <= k < rest.push(t).len() && (#[trigger] rest.push(t)[k]) is Number implies digitless(
        rest.push(t)[k]->Number_0) by {
        if k < rest.len() {
            assert(rest.push(t)[k] == rest[k]);
        }
    }
}

proof fn lemma_lex_digitless(s: Seq<char>, i: int, unary: bool)
    requires
        0 <= i,
        forall|k: int| i <= k < s.len() ==> !is_digit(#[trigger] s[k]),
    ensures
        digitless_numbers(lex_from(s, i, unary)),
    decreases s.len() - i,
{
    if i < s.len() {
        let c = s[i];
        if c == '-' && unary {
            lemma_lex_digitless(s, i + 1, false);
            lemma_cons(TokenView::Negation, lex_from(s, i + 1, false));
        } else if is_operand(c) {
            let n = 1 + run_from(s, i + 1);
            if i + n <= s.len() {
                lemma_lex_digitless(s, i + n, false);
                let x = s.subrange(i, i + n);
                assert(digitless(x)) by {
                    assert forall|k: int| 0 <= k < x.len() implies !is_digit(#[trigger] x[k]) by {
                        assert(x[k] == s[i + k]);
                    }
                }
                lemma_cons(TokenView::Number(x), lex_from(s, i + n, false));
            }
        } else if operator_of(c) is Some {
            lemma_lex_digitless(s, i + 1, true);
            lemma_cons(TokenView::Op(operator_of(c)->0), lex_from(s, i + 1, true));
        } else {
            lemma_lex_digitless(s, i + 1, unary);
        }
    }
}

proof fn lemma_resolve_digitless(ts: Seq<TokenView>, i: int)
    requires
        0 <= i,
        digitless_numbers(ts),
    ensures
        resolve_from(ts, i) matches Some(r) ==> digitless_numbers(r),
    decreases ts.len() - i,
{
    if i < ts.len() {
        if ts[i] is Negation {
            if i + 1 < ts.len() {
                lemma_resolve_digitless(ts, i + 2);
                if let Some(rest) = resolve_from(ts, i + 2) {
                    let x = negated(ts[i + 1]);
                    assert(digitless(x)) by {
                        assert forall|k: int| 0 <= k < x.len() implies !is_digit(#[trigger] x[k]) by {
                            if k > 0 && ts[i + 1] is Number {
                                assert(x[k] == (ts[i + 1]->Number_0)[k - 1]);
                            }
                        }
                    }
                    lemma_cons(TokenView::Number(x), rest);
                }
            }
        } else {
            lemma_resolve_digitless(ts, i + 1);
            if let Some(rest) = resolve_from(ts, i + 1) {
                lemma_cons(ts[i], rest);
            }
        }
    }
}

proof fn lemma_unwind_digitless(stack: Seq<TokenView>, out: Seq<TokenView>, incoming: int)
    requires
        digitless_numbers(stack),
        digitless_numbers(out),
    ensures
        digitless_numbers(unwind(stack, out, incoming).0),
        digitless_numbers(unwind(stack, out, incoming).1),
    decreases stack.len(),
{
    if stack.len() > 0 {
        let rest = stack.drop_last();
        assert(digitless_numbers(rest)) by {
            assert forall|k: int| 0 <= k < rest.len() && (#[trigger] rest[k]) is Number implies digitless(
            rest[k]->Number_0) by {
                assert(rest[k] == stack[k]);
            }
        }
        assert(stack.last() == stack[stack.len() - 1]);
        lemma_cons(stack.last(), out);
        lemma_unwind_digitless(rest, out, incoming);
        lemma_unwind_digitless(rest, out.push(stack.last()), incoming);
    }
}

proof fn lemma_shunt_digitless(
    ts: Seq<TokenView>,
    i: int,
    stack: Seq<TokenView>,
    out: Seq<TokenView>,
)
    requires
        0 <= i,
        digitless_numbers(ts),
        digitless_numbers(stack),
        digitless_numbers(out),
    ensures
        digitless_numbers(shunt_from(ts, i, stack, out)),
    decreases ts.len() - i,
{
    if i < ts.len() {
        let t = ts[i];
        match t {
            TokenView::Op(o) => {
                lemma_unwind_digitless(stack, out, precedence(o, false));
                let (s2, o2) = unwind(stack, out, precedence(o, false));
                lemma_cons(t, s2);
            },
            _ => {
                lemma_cons(t, out);
            },
        }
        let (s3, o3) = shunt(t, stack, out);
        lemma_shunt_digitless(ts, i + 1, s3, o3);
    }
}

proof fn lemma_eval_digitless(ts: Seq<TokenView>, i: int, stack: Seq<Seq<char>>)
    requires
        0 <= i,
        digitless_numbers(ts),
        forall|k: int| 0 <= k < stack.len() ==> digitless(#[trigger] stack[k]),
    ensures
        eval_from(ts, i, stack) == Err::<num_bigfloat::BigFloat, CalcError>(CalcError::Invalid),
    decreases ts.len() - i,
{
    if i < ts.len() {
        match ts[i] {
            TokenView::Number(x) => {
                let next = stack.push(x);
                assert forall|k: int| 0 <= k < next.len() implies digitless(#[trigger] next[k]) by {
                    if k < stack.len() {
                        assert(next[k] == stack[k]);
                    }
                }
                lemma_eval_digitless(ts, i + 1, next);
            },
            TokenView::Op(_) => {
                if stack.len() >= 2 {
                    lemma_digitless_has_no_digits(stack[stack.len() - 2]);
                }
            },
            _ => {},
        }
    } else if stack.len() == 1 {
        lemma_digitless_has_no_digits(stack.last());
    }
}

/// A line without a decimal digit (an empty line, blanks, punctuation,
/// operator symbols alone) has no value: it is reported invalid.
pub proof fn lemma_no_digit_is_invalid(s: Seq<char>)
    requires
        digitless(s),
    ensures
        expression_value(s) == Err::<num_bigfloat::BigFloat, CalcError>(CalcError::Invalid),
{
    lemma_lex_digitless(s, 0, true);
    lemma_resolve_digitless(lex(s), 0);
    if let Some(ts) = resolve(lex(s)) {
        let closed = ts.push(TokenView::Op(Operator::Close));
        lemma_cons(TokenView::Op(Operator::Close), ts);
        lemma_cons(TokenView::Op(Operator::Open), Seq::<TokenView>::empty());
        assert(seq![TokenView::Op(Operator::Open)] =~= Seq::<TokenView>::empty().push(
            TokenView::Op(Operator::Open),
        ));
        lemma_shunt_digitless(
            closed,
            0,
            seq![TokenView::Op(Operator::Open)],
            Seq::<TokenView>::empty(),
        );
        lemma_eval_digitless(postfix_of(ts), 0, Seq::<Seq<char>>::empty());
    }
}

/// A division whose right operand is zero ends the evaluation with
/// `DivisionByZero`, whatever tokens follow it: no later result is computed
/// from a stack it left behind.
pub proof fn lemma_division_by_zero_is_reported(
    ts: Seq<TokenView>,
    i: int,
    stack: Seq<Seq<char>>,
)
    requires
        0 <= i < ts.len(),
        ts[i] == TokenView::Op(Operator::Divide),
        stack.len() >= 2,
        number_of(stack[stack.len() - 2]) is Some,
        number_of(stack[stack.len() - 1]) is Some,
        zero_of(number_of(stack[stack.len() - 1])->0),
    ensures
        eval_from(ts, i, stack) == Err::<num_bigfloat::BigFloat, CalcError>(
            CalcError::DivisionByZero,
        ),
{
}

/// One of the four binary operators.
pub open spec fn is_binary(o: Operator) -> bool {
    o != Operator::Open && o != Operator::Close
}

/// Whether `o` binds tighter than `p`: a multiplication or division over an
/// addition or subtraction.
pub open spec fn binds_tighter(o: Operator, p: Operator) -> bool {
    (o == Operator::Times || o == Operator::Divide) && (p == Operator::Plus || p
        == Operator::Minus)
}

/// `a o b p c` in postfix order: the tighter operator applies first, and of
/// two that bind alike the left one does.
pub open spec fn standard_postfix(
    a: Seq<char>,
    o: Operator,
    b: Seq<char>,
    p: Operator,
    c: Seq<char>,
) -> Seq<TokenView> {
    if binds_tighter(p, o) {
        seq![
            TokenView::Number(a),
            TokenView::Number(b),
            TokenView::Number(c),
            TokenView::Op(p),
            TokenView::Op(o),
        ]
    } else {
        seq![
            TokenView::Number(a),
            TokenView::Number(b),
            TokenView::Op(o),
            TokenView::Number(c),
            TokenView::Op(p),
        ]
    }
}

/// Two binary operators between three numbers are put in the standard
/// order: `*` and `/` before `+` and `-`, and left to right otherwise. A
/// number in parentheses of its own (`a o (b) p c`) is ordered the same.
pub proof fn lemma_two_operators_follow_precedence(
    a: Seq<char>,
    o: Operator,
    b: Seq<char>,
    p: Operator,
    c: Seq<char>,
)
    requires
        is_binary(o),
        is_binary(p),
    ensures
        postfix_of(
            seq![
                TokenView::Number(a),
                TokenView::Op(o),
                TokenView::Number(b),
                TokenView::Op(p),
                TokenView::Number(c),
            ],
        ) == standard_postfix(a, o, b, p, c),
        postfix_of(
            seq![
                TokenView::Number(a),
                TokenView::Op(o),
                TokenView::Op(Operator::Open),
                TokenView::Number(b),
                TokenView::Op(Operator::Close),
                TokenView::Op(p),
                TokenView::Number(c),
            ],
        ) == standard_postfix(a, o, b, p, c),
{
    reveal_with_fuel(shunt_from, 9);
    reveal_with_fuel(unwind, 5);
    assert(postfix_of(
        seq![
            TokenView::Number(a),
            TokenView::Op(o),
            TokenView::Number(b),
            TokenView::Op(p),
            TokenView::Number(c),
        ],
    ) =~= standard_postfix(a, o, b, p, c));
    assert(postfix_of(
        seq![
            TokenView::Number(a),
            TokenView::Op(o),
            TokenView::Op(Operator::Open),
            TokenView::Number(b),
            TokenView::Op(Operator::Close),
            TokenView::Op(p),
            TokenView::Number(c),
        ],
    ) =~= standard_postfix(a, o, b, p, c));
}

/// A parenthesized pair is evaluated first, on either side of the other
/// operator, whatever the two operators are.
pub proof fn lemma_parentheses_group_first(
    a: Seq<char>,
    o: Operator,
    b: Seq<char>,
    p: Operator,
    c: Seq<char>,
)
    requires
        is_binary(o),
        is_binary(p),
    ensures
        postfix_of(
            seq![
                TokenView::Op(Operator::Open),
                TokenView::Number(a),
                TokenView::Op(o),
                TokenView::Number(b),
                TokenView::Op(Operator::Close),
                TokenView::Op(p),
                TokenView::Number(c),
            ],
        ) == seq![
            TokenView::Number(a),
            TokenView::Number(b),
            TokenView::Op(o),
            TokenView::Number(c),
            TokenView::Op(p),
        ],
        postfix_of(
            seq![
                TokenView::Number(a),
                TokenView::Op(o),
                TokenView::Op(Operator::Open),
                TokenView::Number(b),
                TokenView::Op(p),
                TokenView::Number(c),
                TokenView::Op(Operator::Close),
            ],
        ) == seq![
            TokenView::Number(a),
            TokenView::Number(b),
            TokenView::Number(c),
            TokenView::Op(p),
            TokenView::Op(o),
        ],
{
    reveal_with_fuel(shunt_from, 9);
    reveal_with_fuel(unwind, 5);
}

/// A `-` at the start of a line is a negation marker.
pub proof fn lemma_minus_at_start_is_unary(s: Seq<char>)
    requires
        s.len() > 0,
        s[0] == '-',
    ensures
        lex(s) == seq![TokenView::Negation] + lex_from(s, 1, false),
{
}

/// A `-` right after an operator symbol is a negation marker, and the
/// tokens after it are read as after any marker.
pub proof fn lemma_minus_after_operator_is_unary(s: Seq<char>, i: int, unary: bool)
    requires
        0 <= i,
        i + 1 < s.len(),
        operator_of(s[i]) is Some,
        !(s[i] == '-' && unary),
        s[i + 1] == '-',
    ensures
        lex_from(s, i, unary) == seq![TokenView::Op(operator_of(s[i])->0), TokenView::Negation]
            + lex_from(s, i + 2, false),
{
    assert(lex_from(s, i + 1, true) == seq![TokenView::Negation] + lex_from(s, i + 2, false));
    assert(seq![TokenView::Op(operator_of(s[i])->0)] + (seq![TokenView::Negation] + lex_from(
        s,
        i + 2,
        false,
    )) =~= seq![TokenView::Op(operator_of(s[i])->0), TokenView::Negation] + lex_from(
        s,
        i + 2,
        false,
    ));
}

/// A `-` right after the digits and points of a number is subtraction.
pub proof fn lemma_minus_after_number_is_binary(s: Seq<char>, i: int, j: int, unary: bool)
    requires
        0 <= i < j,
        j + 1 <= s.len(),
        !(s[i] == '-' && unary),
        forall|k: int| i <= k < j ==> is_operand(#[trigger] s[k]),
        s[j] == '-',
    ensures
        lex_from(s, i, unary) == seq![
            TokenView::Number(s.subrange(i, j)),
            TokenView::Op(Operator::Minus),
        ] + lex_from(s, j + 1, true),
{
    lemma_run_stops(s, i, j);
    assert(is_operand(s[i]));
    assert(1 + run_from(s, i + 1) == j - i);
    assert(lex_from(s, j, false) == seq![TokenView::Op(Operator::Minus)] + lex_from(s, j + 1, true));
    assert(lex_from(s, i, unary) == seq![TokenView::Number(s.subrange(i, j))] + lex_from(
        s,
        j,
        false,
    ));
    assert(seq![TokenView::Number(s.subrange(i, j))] + (seq![TokenView::Op(Operator::Minus)]
        + lex_from(s, j + 1, true)) =~= seq![
        TokenView::Number(s.subrange(i, j)),
        TokenView::Op(Operator::Minus),
    ] + lex_from(s, j + 1, true));
}

/// A character that is neither part of a number nor an operator symbol is
/// skipped and leaves the unary rule as it was: blanks between an operator
/// and a `-` keep it a negation marker.
pub proof fn lemma_skipped_character_keeps_unary_rule(s: Seq<char>, i: int, unary: bool)
    requires
        0 <= i < s.len(),
        !is_operand(s[i]),
        operator_of(s[i]) is None,
    ensures
        lex_from(s, i, unary) == lex_from(s, i + 1, unary),
{
}

proof fn lemma_run_stops(s: Seq<char>, i: int, j: int)
    requires
        0 <= i <= j < s.len(),
        forall|k: int| i <= k < j ==> is_operand(#[trigger] s[k]),
        !is_operand(s[j]),
    ensures
        run_from(s, i) == j - i,
    decreases j - i,
{
    if i < j {
        lemma_run_stops(s, i + 1, j);
    }
}

} // verus!
