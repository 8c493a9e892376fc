//! The precedence reorderer: infix tokens to postfix order.

use crate::token::{
    get_precedence, lemma_views_drop_last, lemma_views_push, precedence, views, Operator, Token,
    TokenView,
};
use vstd::prelude::*;

verus! {

/// The resting rank of a token on the working stack; a token that is no
/// operator ranks below every operator.
pub open spec fn resting_rank(t: TokenView) -> int {
    match t {
        TokenView::Op(o) => precedence(o, true),
        _ => -2,
    }
}

/// Pops the working stack while its top's resting rank is at least
/// `incoming`. Each popped operator goes to the output; a popped `(` is
/// dropped and ends the popping, as only a `)` ranks low enough to reach
/// one. Gives the stack and the output after.
pub open spec fn unwind(stack: Seq<TokenView>, out: Seq<TokenView>, incoming: int) -> (
    Seq<TokenView>,
    Seq<TokenView>,
)
    decreases stack.len(),
{
    if stack.len() == 0 {
        (stack, out)
    } else if resting_rank(stack.last()) >= incoming {
        if stack.last() == TokenView::Op(Operator::Open) {
            (stack.drop_last(), out)
        } else {
            unwind(stack.drop_last(), out.push(stack.last()), incoming)
        }
    } else {
        (stack, out)
    }
}

/// One step of the reorderer on token `t`: an operator unwinds the stack by
/// its incoming rank and is then pushed, but for a `)`, which has closed its
/// `(` and is dropped; anything else goes to the output.
pub open spec fn shunt(t: TokenView, stack: Seq<TokenView>, out: Seq<TokenView>) -> (
    Seq<TokenView>,
    Seq<TokenView>,
) {
    match t {
        TokenView::Op(o) => {
            let (s2, o2) = unwind(stack, out, precedence(o, false));
            if o == Operator::Close {
                (s2, o2)
            } else {
                (s2.push(t), o2)
            }
        },
        _ => (stack, out.push(t)),
    }
}

/// The output after the steps on the tokens from position `i` on.
pub open spec fn shunt_from(
    ts: Seq<TokenView>,
    i: int,
    stack: Seq<TokenView>,
    out: Seq<TokenView>,
) -> Seq<TokenView>
    decreases ts.len() - i,
{
    if 0 <= i < ts.len() {
        let (s2, o2) = shunt(ts[i], stack, out);
        shunt_from(ts, i + 1, s2, o2)
    } else {
        out
    }
}

/// The postfix order of `ts`: the stack starts with a `(` and a `)` is put
/// after the last token.
pub open spec fn postfix_of(ts: Seq<TokenView>) -> Seq<TokenView> {
    shunt_from(
        ts.push(TokenView::Op(Operator::Close)),
        0,
        seq![TokenView::Op(Operator::Open)],
        seq![],
    )
}

fn resting_rank_of(t: &Token) -> (r: i32)
    ensures
        r as int == resting_rank(t@),
{
    match t {
        Token::Op(o) => get_precedence(*o, true),
        _ => -2,
    }
}

/// Reorders tokens from infix into postfix order by the two-sided
/// precedence table.
pub fn to_postfix(tokens: Vec<Token>) -> (r: Vec<Token>)
    ensures
        views(r@) == postfix_of(views(tokens@)),
{
    let mut tokens = tokens;
    let ghost original = views(tokens@);
    proof {
        lemma_views_push(tokens@, Token::Op(Operator::Close));
    }
    tokens.push(Token::Op(Operator::Close));
    let ghost ts = views(tokens@);
    let mut stack: Vec<Token> = Vec::new();
    stack.push(Token::Op(Operator::Open));
    let mut output: Vec<Token> = Vec::new();
    proof {
        assert(views(stack@) =~= seq![TokenView::Op(Operator::Open)]);
        assert(views(output@) =~= seq![]);
    }
    let mut i: usize = 0;
    while i < tokens.len()
        invariant
            ts == views(tokens@),
            ts == original.push(TokenView::Op(Operator::Close)),
            i <= tokens.len(),
            shunt_from(ts, i as int, views(stack@), views(output@)) == postfix_of(original),
        decreases tokens.len() - i,
    {
        match &tokens[i] {
            Token::Op(op) => {
                let incoming = get_precedence(*op, false);
                let ghost s0 = views(stack@);
                let ghost o0 = views(output@);
                loop
                    invariant_except_break
                        unwind(views(stack@), views(output@), incoming as int) == unwind(
                            s0,
                            o0,
                            incoming as int,
                        ),
                    ensures
                        unwind(s0, o0, incoming as int) == (views(stack@), views(output@)),
                    decreases stack.len(),
                {
                    if stack.len() == 0 {
                        assert(unwind(views(stack@), views(output@), incoming as int) == (
                            views(stack@),
                            views(output@),
                        ));
                        break;
                    }
                    let top_rank = resting_rank_of(&stack[stack.len() - 1]);
                    if top_rank >= incoming {
                        proof {
                            lemma_views_drop_last(stack@);
                        }
                        let ghost before = output@;
                        match stack.pop() {
                            Some(Token::Op(Operator::Open)) => {
                                break;
                            },
                            Some(top) => {
                                output.push(top);
                                proof {
                                    lemma_views_push(before, top);
                                }
                            },
                            None => {},
                        }
                    } else {
                        assert(unwind(views(stack@), views(output@), incoming as int) == (
                            views(stack@),
                            views(output@),
                        ));
                        break;
                    }
                }
                if *op != Operator::Close {
                    let t = Token::Op(*op);
                    proof {
                        lemma_views_push(stack@, t);
                        assert(shunt(ts[i as int], s0, o0) == (
                            views(stack@).push(t@),
                            views(output@),
                        ));
                    }
                    stack.push(t);
                } else {
                    assert(shunt(ts[i as int], s0, o0) == (views(stack@), views(output@)));
                }
            },
            _ => {
                let t = tokens[i].copy();
                proof {
                    lemma_views_push(output@, t);
                    assert(shunt(ts[i as int], views(stack@), views(output@)) == (
                        views(stack@),
                        views(output@).push(t@),
                    ));
                }
                output.push(t);
            },
        }
        i = i + 1;
    }
    output
}

} // verus!
