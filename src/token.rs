//! Tokens of an expression and the two-sided precedence table.

use vstd::prelude::*;

verus! {

/// One of the six operator symbols.
#[derive(Clone, Copy, Debug, PartialEq, Eq, Structural)]
pub enum Operator {
    Plus,
    Minus,
    Times,
    Divide,
    Open,
    Close,
}

/// The symbol an operator is written with.
pub open spec fn symbol(op: Operator) -> char {
    match op {
        Operator::Plus => '+',
        Operator::Minus => '-',
        Operator::Times => '*',
        Operator::Divide => '/',
        Operator::Open => '(',
        Operator::Close => ')',
    }
}

/// The operator written with `c`, if any.
pub open spec fn operator_of(c: char) -> Option<Operator> {
    if c == '+' {
        Some(Operator::Plus)
    } else if c == '-' {
        Some(Operator::Minus)
    } else if c == '*' {
        Some(Operator::Times)
    } else if c == '/' {
        Some(Operator::Divide)
    } else if c == '(' {
        Some(Operator::Open)
    } else if c == ')' {
        Some(Operator::Close)
    } else {
        None
    }
}

/// The rank of an operator: as the one resting on the working stack
/// (`from_stack`), or as the incoming one.
pub open spec fn precedence(op: Operator, from_stack: bool) -> int {
    if from_stack {
        match op {
            Operator::Open => 0,
            Operator::Close => -1,
            Operator::Plus | Operator::Minus => 2,
            Operator::Times | Operator::Divide => 4,
        }
    } else {
        match op {
            Operator::Open => 5,
            Operator::Close => 0,
            Operator::Plus | Operator::Minus => 1,
            Operator::Times | Operator::Divide => 3,
        }
    }
}

impl Operator {
    /// The operator written with `c`, if any.
    pub fn from_char(c: char) -> (r: Option<Operator>)
        ensures
            r == operator_of(c),
    {
        if c == '+' {
            Some(Operator::Plus)
        } else if c == '-' {
            Some(Operator::Minus)
        } else if c == '*' {
            Some(Operator::Times)
        } else if c == '/' {
            Some(Operator::Divide)
        } else if c == '(' {
            Some(Operator::Open)
        } else if c == ')' {
            Some(Operator::Close)
        } else {
            None
        }
    }

    /// The symbol, prefixed with a minus sign: the text of a negation marker
    /// resolved against this operator.
    pub fn negated_text(self) -> (r: String)
        ensures
            r@ == seq!['-', symbol(self)],
    {
        proof {
            reveal_strlit("-+");
            reveal_strlit("--");
            reveal_strlit("-*");
            reveal_strlit("-/");
            reveal_strlit("-(");
            reveal_strlit("-)");
        }
        let r = match self {
            Operator::Plus => String::from_str("-+"),
            Operator::Minus => String::from_str("--"),
            Operator::Times => String::from_str("-*"),
            Operator::Divide => String::from_str("-/"),
            Operator::Open => String::from_str("-("),
            Operator::Close => String::from_str("-)"),
        };
        assert(r@ =~= seq!['-', symbol(self)]);
        r
    }
}

/// The rank of `op` in the two-sided table: `from_stack` for the operator
/// resting on the working stack, otherwise for the incoming one.
pub fn get_precedence(op: Operator, from_stack: bool) -> (r: i32)
    ensures
        r as int == precedence(op, from_stack),
{
    if from_stack {
        match op {
            Operator::Open => 0,
            Operator::Close => -1,
            Operator::Plus | Operator::Minus => 2,
            Operator::Times | Operator::Divide => 4,
        }
    } else {
        match op {
            Operator::Open => 5,
            Operator::Close => 0,
            Operator::Plus | Operator::Minus => 1,
            Operator::Times | Operator::Divide => 3,
        }
    }
}

/// What a token is, in contracts.
pub enum TokenView {
    Number(Seq<char>),
    Op(Operator),
    Negation,
}

/// A token of an expression. `NegationMarker` stands before a number that a
/// unary minus applies to; it is resolved before reordering.
#[derive(Debug)]
pub enum Token {
    Number(String),
    Op(Operator),
    NegationMarker,
}

impl View for Token {
    type V = TokenView;

    open spec fn view(&self) -> TokenView {
        match self {
            Token::Number(s) => TokenView::Number(s@),
            Token::Op(o) => TokenView::Op(*o),
            Token::NegationMarker => TokenView::Negation,
        }
    }
}

/// The views of a sequence of tokens.
pub open spec fn views(ts: Seq<Token>) -> Seq<TokenView> {
    ts.map_values(|t: Token| t@)
}

impl Token {
    /// A copy with the same view.
    pub fn copy(&self) -> (r: Token)
        ensures
            r@ == self@,
    {
        match self {
            Token::Number(s) => Token::Number(s.clone()),
            Token::Op(o) => Token::Op(*o),
            Token::NegationMarker => Token::NegationMarker,
        }
    }
}

pub proof fn lemma_views_push(ts: Seq<Token>, t: Token)
    ensures
        views(ts.push(t)) == views(ts).push(t@),
{
    assert(views(ts.push(t)) =~= views(ts).push(t@));
}

pub proof fn lemma_views_drop_last(ts: Seq<Token>)
    requires
        ts.len() > 0,
    ensures
        views(ts.drop_last()) == views(ts).drop_last(),
        views(ts).last() == ts.last()@,
{
    assert(views(ts.drop_last()) =~= views(ts).drop_last());
}

} // verus!
