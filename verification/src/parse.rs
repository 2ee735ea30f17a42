//! The parser: precedence climbing over the scanner's token stream.
//!
//! The parser keeps a two-token sliding window (`current`, `peeked`), primed
//! with two tokens at construction.  `parse` parses a primary operand and
//! then, while the peeked operator binds tighter than the minimum precedence
//! passed in, folds it with a right-hand side parsed at that operator's own
//! precedence — which makes equal-precedence operators associate left and
//! tighter operators bind first.
//!
//! The specification mirrors this directly: `primary_at`, `chain_at` and
//! `expr_at` are the mathematical parser over positions in the input text,
//! and every executable function is proved to return exactly what they say.

use crate::ast::{Node, OperatorNode};
use crate::lex::{
    lemma_number_token_nonneg, lemma_pos_after, pos_after, token_at, Lexer,
};
use crate::token::{precedence, Token};
use vstd::prelude::*;

verus! {

/// A recoverable parse error, carrying the offending token.
#[derive(Debug, PartialEq, Eq, Clone, Copy)]
pub enum ParseError {
    /// A token that cannot start a primary expression stood where one had to:
    /// an operator, the end of the input, an unrecognized character, or a
    /// malformed numeric literal (which scans as `Illegal`).
    UnexpectedToken(Token),
    /// A unary minus not immediately followed by a numeric literal.
    UnsupportedUnaryOperand(Token),
}

/// The primary operand whose first token starts at `p`: a numeric literal, or
/// a unary minus immediately followed by one.  Returns the parsed leaf and
/// the start position of its last token.
pub open spec fn primary_at(s: Seq<char>, p: int) -> Result<(Node, int), ParseError> {
    let cur = token_at(s, p);
    match cur {
        Token::Number(n) => Ok((Node::Number(n), p)),
        Token::Minus => {
            let q = pos_after(s, p);
            match token_at(s, q) {
                Token::Number(n) => Ok((Node::Number((-(n as int)) as i32), q)),
                pk => Err(ParseError::UnsupportedUnaryOperand(pk)),
            }
        },
        _ => Err(ParseError::UnexpectedToken(cur)),
    }
}

/// The left-associative fold that follows an already-parsed operand `node`
/// whose last token starts at `p`: while the next token is an operator
/// binding tighter than `min_prec`, combine `node` with a right-hand side
/// parsed at that operator's own precedence.
///
/// The position guards along the way always hold (the scanner only moves
/// forward); they only make termination of this definition evident.
pub open spec fn chain_at(s: Seq<char>, p: int, min_prec: u8, node: Node) -> Result<
    (Node, int),
    ParseError,
>
    decreases s.len() - p, 0int,
{
    let q = pos_after(s, p);
    let pk = token_at(s, q);
    if pk != Token::EOF && min_prec < precedence(pk) {
        let r = pos_after(s, q);
        if p < r <= s.len() {
            match expr_at(s, r, precedence(pk)) {
                Ok(pair) => if p < pair.1 <= s.len() {
                    chain_at(
                        s,
                        pair.1,
                        min_prec,
                        Node::BinaryOperator(
                            (OperatorNode {
                                op: pk,
                                left: Box::new(node),
                                right: Box::new(pair.0),
                            }),
                        ),
                    )
                } else {
                    arbitrary()
                },
                Err(e) => Err(e),
            }
        } else {
            arbitrary()
        }
    } else {
        Ok((node, p))
    }
}

/// The expression whose first token starts at `p`, parsed with minimum
/// binding precedence `min_prec`: a primary operand followed by the
/// left-associative operator fold.  Returns the tree and the start position
/// of its last token.
pub open spec fn expr_at(s: Seq<char>, p: int, min_prec: u8) -> Result<
    (Node, int),
    ParseError,
>
    decreases s.len() - p, 1int,
{
    match primary_at(s, p) {
        Ok(pair) => if p <= pair.1 <= s.len() {
            chain_at(s, pair.1, min_prec, pair.0)
        } else {
            arbitrary()
        },
        Err(e) => Err(e),
    }
}

/// What parsing the text `s` yields: the expression tree starting at its
/// first token, or the parse error.  Tokens beyond the parsed expression are
/// left unread, exactly as the executable parser leaves them.
pub open spec fn parse_text(s: Seq<char>) -> Result<Node, ParseError> {
    match expr_at(s, 0, 0) {
        Ok(pair) => Ok(pair.0),
        Err(e) => Err(e),
    }
}

/// Re-parsing the same text yields an identical result: every call of
/// [`parse`] returns exactly `parse_text` of its input, so no hidden mutable
/// state survives from one call to the next.
pub proof fn lemma_reparse_identical(
    s: Seq<char>,
    r1: Result<Node, ParseError>,
    r2: Result<Node, ParseError>,
)
    requires
        r1 == parse_text(s),
        r2 == parse_text(s),
    ensures
        r1 == r2,
{
}

/// Parses one expression from `input` and returns its tree, or a parse error
/// carrying the offending token.
pub fn parse(input: String) -> (r: Result<Node, ParseError>)
    ensures
        r == parse_text(input@),
{
    let mut p = Parser::new(input);
    p.parse()
}

/// The parser: a scanner plus the two-token sliding window.  The ghost `pos`
/// tracks the character position where `current`'s token starts.
pub struct Parser {
    lx: Lexer,
    current: Token,
    peeked: Token,
    pos: Ghost<int>,
}

impl Parser {
    /// The input text being parsed.
    pub closed spec fn text(self) -> Seq<char> {
        self.lx.text()
    }

    /// The character position where the current token starts.
    pub closed spec fn start(self) -> int {
        self.pos@
    }

    /// The parser's internal invariant: the window holds the two tokens at
    /// the tracked position, and the scanner stands right after them.
    pub closed spec fn wf(self) -> bool {
        &&& self.lx.wf()
        &&& 0 <= self.pos@ <= self.text().len()
        &&& self.current == token_at(self.text(), self.pos@)
        &&& self.peeked == token_at(self.text(), pos_after(self.text(), self.pos@))
        &&& self.lx.cursor() == pos_after(self.text(), pos_after(self.text(), self.pos@))
    }

    /// Creates a parser over `input`, primed with its first two tokens.
    pub fn new(input: String) -> (p: Parser)
        ensures
            p.wf(),
            p.text() == input@,
            p.start() == 0,
    {
        let ghost s = input@;
        let mut lx = Lexer::new(input);
        proof {
            lemma_pos_after(s, 0);
            lemma_pos_after(s, pos_after(s, 0));
        }
        let current = lx.next();
        let peeked = lx.next();
        Parser { lx, current, peeked, pos: Ghost(0) }
    }

    /// Parses one whole expression: the same as climbing from precedence 0.
    pub fn parse(&mut self) -> (r: Result<Node, ParseError>)
        requires
            old(self).wf(),
        ensures
            match expr_at(old(self).text(), old(self).start(), 0) {
                Ok(pair) => r == Ok::<Node, ParseError>(pair.0),
                Err(e) => r == Err::<Node, ParseError>(e),
            },
    {
        self.parse_by_current_precedence(0)
    }

    /// Parses an expression whose operators must bind tighter than
    /// `precedence`: a primary operand, then the left-associative fold.
    fn parse_by_current_precedence(&mut self, precedence: u8) -> (r: Result<Node, ParseError>)
        requires
            old(self).wf(),
        ensures
            final(self).wf(),
            final(self).text() == old(self).text(),
            old(self).start() <= final(self).start(),
            match expr_at(old(self).text(), old(self).start(), precedence) {
                Ok(pair) => r == Ok::<Node, ParseError>(pair.0) && final(self).start() == pair.1
                    && token_at(final(self).text(), final(self).start()) is Number,
                Err(e) => r == Err::<Node, ParseError>(e),
            },
        decreases 3 - precedence as int, 1int,
    {
        let ghost s = self.text();
        let ghost p0 = self.start();
        let mut node = match self.parse_unary() {
            Ok(n) => n,
            Err(e) => {
                return Err(e);
            },
        };
        while precedence < self.peeked.get_precedence() && self.peeked != Token::EOF
            invariant
                self.wf(),
                s == old(self).text(),
                p0 == old(self).start(),
                self.text() == s,
                p0 <= self.start() <= s.len(),
                token_at(s, self.start()) is Number,
                chain_at(s, self.start(), precedence, node) == expr_at(s, p0, precedence),
            decreases s.len() - self.start(),
        {
            let ghost p = self.start();
            proof {
                lemma_pos_after(s, p);
                lemma_pos_after(s, pos_after(s, p));
            }
            self.next();
            node = match self.parse_binary(node) {
                Ok(n) => n,
                Err(e) => {
                    return Err(e);
                },
            };
        }
        Ok(node)
    }

    /// Parses a primary operand: a literal, or a unary minus immediately
    /// followed by one; anything else is a recoverable parse error.
    fn parse_unary(&mut self) -> (r: Result<Node, ParseError>)
        requires
            old(self).wf(),
        ensures
            final(self).wf(),
            final(self).text() == old(self).text(),
            old(self).start() <= final(self).start(),
            match primary_at(old(self).text(), old(self).start()) {
                Ok(pair) => r == Ok::<Node, ParseError>(pair.0) && final(self).start() == pair.1
                    && token_at(final(self).text(), final(self).start()) is Number,
                Err(e) => r == Err::<Node, ParseError>(e),
            },
    {
        match self.current {
            Token::Minus => {
                let n = match self.peeked {
                    Token::Number(i) => i,
                    t => {
                        return Err(ParseError::UnsupportedUnaryOperand(t));
                    },
                };
                proof {
                    lemma_pos_after(self.text(), self.start());
                    lemma_number_token_nonneg(self.text(), pos_after(self.text(), self.start()));
                }
                self.next();
                Ok(Node::Number(-n))
            },
            Token::Number(n) => Ok(Node::Number(n)),
            t => Err(ParseError::UnexpectedToken(t)),
        }
    }

    /// Folds the operand `l` with the operator in `current` and a right-hand
    /// side parsed at that operator's own precedence.
    fn parse_binary(&mut self, l: Node) -> (r: Result<Node, ParseError>)
        requires
            old(self).wf(),
            1 <= precedence(old(self).current),
        ensures
            final(self).wf(),
            final(self).text() == old(self).text(),
            pos_after(old(self).text(), old(self).start()) <= final(self).start(),
            match expr_at(
                old(self).text(),
                pos_after(old(self).text(), old(self).start()),
                precedence(old(self).current),
            ) {
                Ok(pair) => r == Ok::<Node, ParseError>(
                    Node::BinaryOperator(
                        (OperatorNode {
                            op: old(self).current,
                            left: Box::new(l),
                            right: Box::new(pair.0),
                        }),
                    ),
                ) && final(self).start() == pair.1
                    && token_at(final(self).text(), final(self).start()) is Number,
                Err(e) => r == Err::<Node, ParseError>(e),
            },
        decreases 3 - precedence(old(self).current) as int, 2int,
    {
        let o = self.current;
        self.next();
        let rhs = match self.parse_by_current_precedence(o.get_precedence()) {
            Ok(n) => n,
            Err(e) => {
                return Err(e);
            },
        };
        Ok(Node::BinaryOperator(OperatorNode { op: o, left: Box::new(l), right: Box::new(rhs) }))
    }

    /// Slides the token window forward by one token.
    fn next(&mut self)
        requires
            old(self).wf(),
        ensures
            final(self).wf(),
            final(self).text() == old(self).text(),
            final(self).start() == pos_after(old(self).text(), old(self).start()),
            final(self).current == old(self).peeked,
    {
        let ghost s = self.text();
        let ghost p = self.pos@;
        proof {
            lemma_pos_after(s, p);
            lemma_pos_after(s, pos_after(s, p));
            lemma_pos_after(s, pos_after(s, pos_after(s, p)));
        }
        self.current = self.peeked;
        self.peeked = self.lx.next();
        self.pos = Ghost(pos_after(s, p));
    }
}

} // verus!
