//! The tree-walking evaluator.

use crate::ast::{Node, OperatorNode};
use crate::token::Token;
use vstd::prelude::*;

verus! {

/// A fault raised while evaluating an expression tree.
///
/// `DivisionByZero` and `NumericOverflow` are arithmetic faults a user can
/// provoke; `InvalidOperator` signals a corrupted tree (a binary node whose
/// operator is not one of `+ - * /`), which a correct parser never produces.
#[derive(Debug, PartialEq, Eq, Clone, Copy)]
pub enum EvalFault {
    DivisionByZero,
    NumericOverflow,
    InvalidOperator,
}

/// Truncating integer division (the semantics of Rust's `/` on `i32`): the
/// quotient of the absolute values, negated when the signs differ.
pub open spec fn truncated_div(a: int, b: int) -> int {
    let q = abs_int(a) / abs_int(b);
    if (a < 0) == (b < 0) {
        q
    } else {
        -q
    }
}

/// The absolute value of an integer.
pub open spec fn abs_int(a: int) -> int {
    if a < 0 {
        -a
    } else {
        a
    }
}

/// The value of applying binary operator `op` to the values `l` and `r`:
/// division by zero and any result outside the range of `i32` are faults.
pub open spec fn apply_op(op: Token, l: i32, r: i32) -> Result<i32, EvalFault> {
    if op == Token::Slash && r == 0 {
        Err(EvalFault::DivisionByZero)
    } else {
        let v: int = match op {
            Token::Plus => l + r,
            Token::Minus => l - r,
            Token::Asterisk => l * r,
            Token::Slash => truncated_div(l as int, r as int),
            _ => 0,
        };
        if v < i32::MIN || v > i32::MAX {
            Err(EvalFault::NumericOverflow)
        } else {
            Ok(v as i32)
        }
    }
}

/// The value of an expression tree: a literal evaluates to itself, a binary
/// node evaluates its children left to right and combines the results, and a
/// non-arithmetic operator in a binary node is an `InvalidOperator` fault.
pub open spec fn eval_node(n: Node) -> Result<i32, EvalFault>
    decreases n,
{
    match n {
        Node::Number(num) => Ok(num),
        Node::BinaryOperator(bo) => match bo.op {
            Token::Plus | Token::Minus | Token::Asterisk | Token::Slash => {
                match eval_node(*bo.left) {
                    Err(e) => Err(e),
                    Ok(l) => match eval_node(*bo.right) {
                        Err(e) => Err(e),
                        Ok(r) => apply_op(bo.op, l, r),
                    },
                }
            },
            _ => Err(EvalFault::InvalidOperator),
        },
    }
}

/// Re-evaluating the same tree yields an identical result: every call of
/// [`eval`] returns exactly `eval_node` of its argument, so evaluating one
/// expression can never disturb another.
pub proof fn lemma_reevaluate_identical(
    n: Node,
    r1: Result<i32, EvalFault>,
    r2: Result<i32, EvalFault>,
)
    requires
        r1 == eval_node(n),
        r2 == eval_node(n),
    ensures
        r1 == r2,
{
}

/// Evaluates an expression tree, reporting arithmetic faults and corrupted
/// trees as error values rather than panicking.
pub fn eval(ast: Node) -> (res: Result<i32, EvalFault>)
    ensures
        res == eval_node(ast),
    decreases ast,
{
    match ast {
        Node::Number(num) => Ok(num),
        Node::BinaryOperator(bo) => {
            let op = bo.op;
            match op {
                Token::Plus | Token::Minus | Token::Asterisk | Token::Slash => {},
                _ => {
                    return Err(EvalFault::InvalidOperator);
                },
            }
            let l = match eval(*bo.left) {
                Ok(v) => v,
                Err(e) => {
                    return Err(e);
                },
            };
            let r = match eval(*bo.right) {
                Ok(v) => v,
                Err(e) => {
                    return Err(e);
                },
            };
            match op {
                Token::Plus => check_range(l as i64 + r as i64),
                Token::Minus => check_range(l as i64 - r as i64),
                Token::Asterisk => {
                    proof {
                        assert((l as i64) * (r as i64) == (l as int) * (r as int)
                            && -0x4000000000000000 <= (l as int) * (r as int)
                            <= 0x4000000000000000) by (nonlinear_arith)
                            requires
                                -0x80000000 <= l <= 0x7fffffff,
                                -0x80000000 <= r <= 0x7fffffff,
                        ;
                    }
                    check_range(l as i64 * r as i64)
                },
                Token::Slash => divide(l, r),
                _ => Err(EvalFault::InvalidOperator),
            }
        },
    }
}

/// Returns `v` as an `i32` when it fits, and a `NumericOverflow` fault
/// otherwise.
fn check_range(v: i64) -> (res: Result<i32, EvalFault>)
    ensures
        res == (if v < i32::MIN || v > i32::MAX {
            Err::<i32, EvalFault>(EvalFault::NumericOverflow)
        } else {
            Ok::<i32, EvalFault>(v as i32)
        }),
{
    if v < -0x80000000i64 || v > 0x7fffffffi64 {
        Err(EvalFault::NumericOverflow)
    } else {
        Ok(v as i32)
    }
}

/// Truncating `i32` division with division by zero and `i32::MIN / -1`
/// reported as faults.
fn divide(l: i32, r: i32) -> (res: Result<i32, EvalFault>)
    ensures
        res == apply_op(Token::Slash, l, r),
{
    if r == 0 {
        return Err(EvalFault::DivisionByZero);
    }
    let lm: u64 = if l >= 0 {
        l as u64
    } else {
        (-(l as i64)) as u64
    };
    let rm: u64 = if r >= 0 {
        r as u64
    } else {
        (-(r as i64)) as u64
    };
    let q: u64 = lm / rm;
    proof {
        assert(lm == abs_int(l as int));
        assert(rm == abs_int(r as int));
        assert(q <= lm) by (nonlinear_arith)
            requires
                rm >= 1,
                q == lm / rm,
                lm >= 0,
        ;
    }
    if (l < 0) == (r < 0) {
        if q > 0x7fffffffu64 {
            Err(EvalFault::NumericOverflow)
        } else {
            Ok(q as i32)
        }
    } else {
        Ok((-(q as i64)) as i32)
    }
}

} // verus!
