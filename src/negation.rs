//! The negation resolver: folds each negation marker into the token after it.

use crate::token::{lemma_views_push, symbol, views, Token, TokenView};
use vstd::prelude::*;

verus! {

/// The text of a token when a minus sign is put before it.
pub open spec fn negated(t: TokenView) -> Seq<char> {
    match t {
        TokenView::Number(s) => seq!['-'] + s,
        TokenView::Op(o) => seq!['-', symbol(o)],
        TokenView::Negation => seq!['-'],
    }
}

/// The tokens from position `i` on with each marker and the token after it
/// fused into one number; `None` where a marker is the last token.
pub open spec fn resolve_from(ts: Seq<TokenView>, i: int) -> Option<Seq<TokenView>>
    decreases ts.len() - i,
{
    if 0 <= i < ts.len() {
        if ts[i] is Negation {
            if i + 1 < ts.len() {
                match resolve_from(ts, i + 2) {
                    Some(rest) => Some(seq![TokenView::Number(negated(ts[i + 1]))] + rest),
                    None => None,
                }
            } else {
                None
            }
        } else {
            match resolve_from(ts, i + 1) {
                Some(rest) => Some(seq![ts[i]] + rest),
                None => None,
            }
        }
    } else {
        Some(seq![])
    }
}

/// The whole sequence with its markers resolved.
pub open spec fn resolve(ts: Seq<TokenView>) -> Option<Seq<TokenView>> {
    resolve_from(ts, 0)
}

/// The text of `t` with a minus sign before it.
fn negated_text(t: &Token) -> (r: String)
    ensures
        r@ == negated(t@),
{
    proof {
        reveal_strlit("-");
    }
    match t {
        Token::Number(s) => String::from_str("-").concat(s.as_str()),
        Token::Op(o) => o.negated_text(),
        Token::NegationMarker => String::from_str("-"),
    }
}

/// Resolves every negation marker: the marker and the token after it become
/// one number whose text is the latter's with a minus sign before it. A
/// marker with nothing after it leaves the expression without meaning:
/// `None`.
pub fn negate_tokens(tokens: Vec<Token>) -> (r: Option<Vec<Token>>)
    ensures
        match r {
            Some(v) => resolve(views(tokens@)) == Some(views(v@)),
            None => resolve(views(tokens@)) is None,
        },
{
    let ghost ts = views(tokens@);
    let mut output: Vec<Token> = Vec::new();
    let mut i: usize = 0;
    while i < tokens.len()
        invariant
            ts == views(tokens@),
            i <= tokens.len(),
            resolve(ts) == match resolve_from(ts, i as int) {
                Some(rest) => Some(views(output@) + rest),
                None => None,
            },
        decreases tokens.len() - i,
    {
        let ghost before = output@;
        match &tokens[i] {
            Token::NegationMarker => {
                if i + 1 < tokens.len() {
                    let t = Token::Number(negated_text(&tokens[i + 1]));
                    output.push(t);
                    proof {
                        lemma_views_push(before, t);
                        match resolve_from(ts, i + 2) {
                            Some(rest) => {
                                assert(views(output@) + rest =~= views(before) + (seq![
                                    TokenView::Number(negated(ts[i + 1])),
                                ] + rest));
                            },
                            None => {},
                        }
                    }
                    i = i + 2;
                } else {
                    return None;
                }
            },
            _ => {
                let t = tokens[i].copy();
                output.push(t);
                proof {
                    lemma_views_push(before, t);
                    match resolve_from(ts, i + 1) {
                        Some(rest) => {
                            assert(views(output@) + rest =~= views(before) + (seq![ts[i as int]]
                                + rest));
                        },
                        None => {},
                    }
                }
                i = i + 1;
            },
        }
    }
    assert(views(output@) + seq![] =~= views(output@));
    Some(output)
}

} // verus!
