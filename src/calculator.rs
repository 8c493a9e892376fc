//! The whole pipeline on one line of input, and what the read-eval-print
//! loop decides for each line it reads.

use crate::evaluator::{eval, solve_postfix, CalcError};
use crate::lexer::{lex, tokenize};
use crate::negation::{negate_tokens, resolve};
use crate::postfix::{postfix_of, to_postfix};
use num_bigfloat::BigFloat;
use vstd::prelude::*;

verus! {

/// The value of an expression: its tokens, with negations resolved, in
/// postfix order, evaluated.
pub open spec fn expression_value(s: Seq<char>) -> Result<BigFloat, CalcError> {
    match resolve(lex(s)) {
        Some(ts) => eval(postfix_of(ts)),
        None => Err(CalcError::Invalid),
    }
}

/// Evaluates an expression.
pub fn calculate(line: &str) -> (r: Result<BigFloat, CalcError>)
    ensures
        r == expression_value(line@),
{
    match negate_tokens(tokenize(line)) {
        Some(tokens) => solve_postfix(to_postfix(tokens)),
        None => Err(CalcError::Invalid),
    }
}

/// A line terminator.
pub open spec fn is_terminator(c: char) -> bool {
    c == '\n' || c == '\r'
}

/// `s` without the line terminators at its end.
pub open spec fn trim_terminators(s: Seq<char>) -> Seq<char>
    decreases s.len(),
{
    if s.len() > 0 && is_terminator(s.last()) {
        trim_terminators(s.drop_last())
    } else {
        s
    }
}

/// A blank character: space, tab, line feed, vertical tab, form feed or
/// carriage return.
pub open spec fn is_blank(c: char) -> bool {
    c == ' ' || c == '\t' || c == '\n' || c == '\x0B' || c == '\x0C' || c == '\r'
}

/// Whether a text holds nothing but blanks (an empty text does).
pub open spec fn all_blank(s: Seq<char>) -> bool {
    forall|i: int| 0 <= i < s.len() ==> is_blank(#[trigger] s[i])
}

/// The word that ends the loop.
pub open spec fn exit_word() -> Seq<char> {
    seq!['e', 'x', 'i', 't']
}

/// A line of input, without its terminators, and not blank.
pub struct UserInput {
    pub contents: String,
}

impl UserInput {
    /// Wraps a text as it is.
    pub fn new(contents: String) -> (r: UserInput)
        ensures
            r.contents@ == contents@,
    {
        UserInput { contents }
    }

    /// Takes the line terminators off the end of `line`; `None` where
    /// nothing but blanks is left.
    pub fn try_new(line: String) -> (r: Option<UserInput>)
        ensures
            match r {
                Some(u) => u.contents@ == trim_terminators(line@) && !all_blank(u.contents@),
                None => all_blank(trim_terminators(line@)),
            },
    {
        let mut end = line.as_str().unicode_len();
        proof {
            assert(line@.subrange(0, line@.len() as int) =~= line@);
        }
        while end > 0 && is_terminator_char(line.as_str().get_char(end - 1))
            invariant
                end <= line@.len(),
                trim_terminators(line@.subrange(0, end as int)) == trim_terminators(line@),
            decreases end,
        {
            proof {
                assert(line@.subrange(0, end as int).drop_last() =~= line@.subrange(
                    0,
                    end - 1,
                ));
            }
            end = end - 1;
        }
        let ghost kept = line@.subrange(0, end as int);
        let mut k: usize = 0;
        while k < end && is_blank_char(line.as_str().get_char(k))
            invariant
                end <= line@.len(),
                kept == line@.subrange(0, end as int),
                k <= end,
                forall|i: int| 0 <= i < k ==> is_blank(#[trigger] kept[i]),
            decreases end - k,
        {
            k = k + 1;
        }
        if k == end {
            None
        } else {
            let contents = String::from_str(line.as_str().substring_char(0, end));
            proof {
                assert(!is_blank(kept[k as int]));
            }
            Some(UserInput::new(contents))
        }
    }

    /// Whether the input is the exit command.
    pub fn should_exit(&self) -> (r: bool)
        ensures
            r == (self.contents@ == exit_word()),
    {
        let s = self.contents.as_str();
        if s.unicode_len() != 4 {
            return false;
        }
        let r = s.get_char(0) == 'e' && s.get_char(1) == 'x' && s.get_char(2) == 'i'
            && s.get_char(3) == 't';
        proof {
            if r {
                assert(s@ =~= exit_word());
            }
        }
        r
    }
}

fn is_blank_char(c: char) -> (r: bool)
    ensures
        r == is_blank(c),
{
    c == ' ' || c == '\t' || c == '\n' || c == '\x0B' || c == '\x0C' || c == '\r'
}

fn is_terminator_char(c: char) -> (r: bool)
    ensures
        r == is_terminator(c),
{
    c == '\n' || c == '\r'
}

/// Evaluates the expression a line of input holds.
pub fn run_calculations(user_input: &UserInput) -> (r: Result<BigFloat, CalcError>)
    ensures
        r == expression_value(user_input.contents@),
{
    calculate(user_input.contents.as_str())
}

/// What the loop does with a line it has read.
pub enum Reply {
    /// Nothing but blanks was read: ask again.
    Reprompt,
    /// The exit command: stop, evaluating nothing.
    Exit,
    /// The expression's value, or why it has none.
    Evaluated(Result<BigFloat, CalcError>),
}

/// Decides what the loop does with one line read from the user.
pub fn respond(line: String) -> (r: Reply)
    ensures
        all_blank(trim_terminators(line@)) <==> r is Reprompt,
        trim_terminators(line@) == exit_word() <==> r is Exit,
        !all_blank(trim_terminators(line@)) && trim_terminators(line@) != exit_word() ==> r
            == Reply::Evaluated(expression_value(trim_terminators(line@))),
{
    match UserInput::try_new(line) {
        None => Reply::Reprompt,
        Some(input) => {
            if input.should_exit() {
                Reply::Exit
            } else {
                Reply::Evaluated(run_calculations(&input))
            }
        },
    }
}

} // verus!
