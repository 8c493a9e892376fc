//! The tokenizer: splits a line of text into tokens.

use crate::token::{operator_of, views, lemma_views_push, Operator, Token, TokenView};
use vstd::prelude::*;

verus! {

/// A character that may stand in a number: a digit or a decimal point.
pub open spec fn is_operand(c: char) -> bool {
    ('0' <= c && c <= '9') || c == '.'
}

/// The length of the run of operand characters that starts at `i`.
pub open spec fn run_from(s: Seq<char>, i: int) -> nat
    decreases s.len() - i,
{
    if 0 <= i < s.len() && is_operand(s[i]) {
        1 + run_from(s, i + 1)
    } else {
        0
    }
}

/// The tokens of `s` from position `i` on. `unary` holds where no token has
/// been emitted yet or the last one emitted is an operator: a `-` there is a
/// negation marker, elsewhere it is subtraction. A run of digits and points
/// is one number; any other character is skipped.
pub open spec fn lex_from(s: Seq<char>, i: int, unary: bool) -> Seq<TokenView>
    decreases s.len() - i,
{
    if 0 <= i < s.len() {
        let c = s[i];
        if c == '-' && unary {
            seq![TokenView::Negation] + lex_from(s, i + 1, false)
        } else if is_operand(c) {
            let n = 1 + run_from(s, i + 1);
            if i + n <= s.len() {
                seq![TokenView::Number(s.subrange(i, i + n))] + lex_from(s, i + n, false)
            } else {
                seq![]
            }
        } else if operator_of(c) is Some {
            seq![TokenView::Op(operator_of(c)->0)] + lex_from(s, i + 1, true)
        } else {
            lex_from(s, i + 1, unary)
        }
    } else {
        seq![]
    }
}

/// The tokens of a whole line.
pub open spec fn lex(s: Seq<char>) -> Seq<TokenView> {
    lex_from(s, 0, true)
}

proof fn lemma_run_bound(s: Seq<char>, i: int)
    requires
        0 <= i <= s.len(),
    ensures
        i + run_from(s, i) <= s.len(),
    decreases s.len() - i,
{
    if i < s.len() {
        lemma_run_bound(s, i + 1);
    }
}

fn is_operand_char(c: char) -> (r: bool)
    ensures
        r == is_operand(c),
{
    ('0' <= c && c <= '9') || c == '.'
}

/// Splits `input` into tokens, left to right.
pub fn tokenize(input: &str) -> (r: Vec<Token>)
    ensures
        views(r@) == lex(input@),
{
    let ghost s = input@;
    let n = input.unicode_len();
    let mut tokens: Vec<Token> = Vec::new();
    let mut unary = true;
    let mut i: usize = 0;
    while i < n
        invariant
            s == input@,
            n == s.len(),
            i <= n,
            views(tokens@) + lex_from(s, i as int, unary) == lex(s),
        decreases n - i,
    {
        let c = input.get_char(i);
        let ghost before = tokens@;
        if c == '-' && unary {
            tokens.push(Token::NegationMarker);
            proof {
                lemma_views_push(before, Token::NegationMarker);
                assert(views(tokens@) + lex_from(s, i + 1, false) =~= views(before) + lex_from(
                    s,
                    i as int,
                    unary,
                ));
            }
            unary = false;
            i = i + 1;
        } else if is_operand_char(c) {
            let mut j: usize = i + 1;
            while j < n && is_operand_char(input.get_char(j))
                invariant
                    s == input@,
                    n == s.len(),
                    i < j <= n,
                    run_from(s, i as int) == (j - i) + run_from(s, j as int),
                decreases n - j,
            {
                j = j + 1;
            }
            proof {
                lemma_run_bound(s, i as int);
            }
            let t = Token::Number(String::from_str(input.substring_char(i, j)));
            tokens.push(t);
            proof {
                lemma_views_push(before, t);
                assert(views(tokens@) + lex_from(s, j as int, false) =~= views(before) + lex_from(
                    s,
                    i as int,
                    unary,
                ));
            }
            unary = false;
            i = j;
        } else {
            match Operator::from_char(c) {
                Some(op) => {
                    tokens.push(Token::Op(op));
                    proof {
                        lemma_views_push(before, Token::Op(op));
                        assert(views(tokens@) + lex_from(s, i + 1, true) =~= views(before)
                            + lex_from(s, i as int, unary));
                    }
                    unary = true;
                },
                None => {},
            }
            i = i + 1;
        }
    }
    assert(lex_from(s, i as int, unary) =~= seq![]);
    assert(views(tokens@) =~= views(tokens@) + lex_from(s, i as int, unary));
    tokens
}

} // verus!
