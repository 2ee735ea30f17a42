//! The expression tree built by the parser and consumed by the evaluator.

use crate::token::Token;
use vstd::prelude::*;

verus! {

/// A parsed arithmetic expression: either a literal leaf or a binary
/// operation over two owned subtrees.
#[derive(Debug, PartialEq)]
pub enum Node {
    BinaryOperator(OperatorNode),
    Number(i32),
}

/// A binary operation node.  A tree built by the parser always carries one of
/// the four arithmetic operators in `op`; any other token here marks a
/// corrupted tree, which the evaluator reports as a distinct fault.
#[derive(Debug, PartialEq)]
pub struct OperatorNode {
    pub op: Token,
    pub left: Box<Node>,
    pub right: Box<Node>,
}

} // verus!
