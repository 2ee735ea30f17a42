//! An arithmetic expression engine over signed 32-bit integers: a character
//! scanner that turns text into tokens, a precedence-climbing parser that
//! builds an expression tree, and a tree-walking evaluator.
//!
//! The supported language has integer literals, the four binary operators
//! `+ - * /` with the usual precedence (all left-associative), and a unary
//! minus that applies only to an immediately following literal.  There are no
//! parentheses, variables, or floating-point literals.
//!
//! Every entry point returns errors as ordinary values: a malformed input
//! yields a [`parse::ParseError`], and an evaluation that divides by zero or
//! overflows `i32` yields an [`eval::EvalFault`].  No verified function here
//! panics.

pub mod ast;
pub mod eval;
pub mod lex;
pub mod parse;
pub mod token;
