//! Lexical tokens and their operator precedence.

use vstd::prelude::*;

verus! {

/// The smallest lexical unit the scanner produces.
///
/// `Illegal` stands for an unrecognized character or a malformed numeric
/// literal (a digit run with an embedded `.`, or one whose value does not fit
/// in `i32`).  `EOF` marks the end of the input.
#[derive(Debug, PartialEq, Eq, Structural, Clone, Copy)]
pub enum Token {
    Illegal,
    EOF,
    Number(i32),
    Plus,
    Minus,
    Slash,
    Asterisk,
}

/// The binding strength of a token when it appears as a binary operator:
/// additive operators bind at 1, multiplicative ones at 2, everything else
/// (which can never act as an operator) at 0.
pub open spec fn precedence(t: Token) -> u8 {
    match t {
        Token::Plus | Token::Minus => 1,
        Token::Asterisk | Token::Slash => 2,
        _ => 0,
    }
}

impl Token {
    /// The precedence this token binds with as a binary operator.
    pub fn get_precedence(&self) -> (p: u8)
        ensures
            p == precedence(*self),
    {
        match self {
            Token::Plus | Token::Minus => 1,
            Token::Asterisk | Token::Slash => 2,
            _ => 0,
        }
    }
}

} // verus!
