//! An arithmetic expression evaluator: a line of text with `+ - * /` and
//! parentheses is split into tokens, unary minus is folded into numbers, the
//! tokens are reordered into postfix form by a two-sided precedence table, and
//! the postfix form is evaluated with arbitrary-precision decimals.

pub mod decimal;
pub mod token;
pub mod lexer;
pub mod negation;
pub mod postfix;
pub mod evaluator;
pub mod calculator;
pub mod laws;
