//! The evaluator: the value of a syntax tree.
//!
//! Values are signed, so that a negation has a meaning, and 128 bits wide,
//! so that every number literal is a value. A result outside that range is
//! an error, like a division by zero.

use crate::grammar::{Expr, InfixOp};
use vstd::prelude::*;

verus! {

/// Why an expression has no value.
#[derive(Debug, PartialEq, Eq, Clone, Copy)]
pub enum EvalError {
    /// The right operand of a division is zero.
    DivisionByZero,
    /// The value of the expression, or of a part of it, does not fit in an
    /// `i128`.
    Overflow,
}

/// The quotient of `a` by `b`, rounded towards zero.
pub open spec fn quotient(a: int, b: int) -> int
    recommends
        b != 0,
{
    if a >= 0 && b > 0 {
        a / b
    } else if a < 0 && b < 0 {
        (-a) / (-b)
    } else if a < 0 {
        -((-a) / b)
    } else {
        -(a / (-b))
    }
}

/// `v` as a value, if it is in the range of the evaluator.
pub open spec fn fitting(v: int) -> Result<int, EvalError> {
    if i128::MIN <= v <= i128::MAX {
        Ok(v)
    } else {
        Err(EvalError::Overflow)
    }
}

/// The result of an infix operator on two values.
pub open spec fn apply(operator: InfixOp, left: int, right: int) -> Result<int, EvalError> {
    match operator {
        InfixOp::Plus => fitting(left + right),
        InfixOp::Minus => fitting(left - right),
        InfixOp::Times => fitting(left * right),
        InfixOp::Divides => if right == 0 {
            Err(EvalError::DivisionByZero)
        } else {
            fitting(quotient(left, right))
        },
    }
}

/// The value of an expression. The left operand is evaluated before the
/// right one, and the first error ends the evaluation.
pub open spec fn value(expr: Expr) -> Result<int, EvalError>
    decreases expr,
{
    match expr {
        Expr::Number(n) => Ok(n as int),
        Expr::PrefixExpr { operator: _, right } => match value(*right) {
            Ok(v) => fitting(-v),
            Err(e) => Err(e),
        },
        Expr::InfixExpr { left, operator, right } => match value(*left) {
            Ok(l) => match value(*right) {
                Ok(r) => apply(operator, l, r),
                Err(e) => Err(e),
            },
            Err(e) => Err(e),
        },
    }
}

/// The value of an expression in the arithmetic of all integers; `None`
/// where it divides by zero.
pub open spec fn meaning(expr: Expr) -> Option<int>
    decreases expr,
{
    match expr {
        Expr::Number(n) => Some(n as int),
        Expr::PrefixExpr { operator: _, right } => match meaning(*right) {
            Some(v) => Some(-v),
            None => None,
        },
        Expr::InfixExpr { left, operator, right } => match (meaning(*left), meaning(*right)) {
            (Some(l), Some(r)) => match operator {
                InfixOp::Plus => Some(l + r),
                InfixOp::Minus => Some(l - r),
                InfixOp::Times => Some(l * r),
                InfixOp::Divides => if r == 0 {
                    None
                } else {
                    Some(quotient(l, r))
                },
            },
            _ => None,
        },
    }
}

/// The evaluator returns no value but the right one: a value is the
/// meaning of the expression in the arithmetic of all integers, and a
/// division by zero is reported only where the expression divides by zero.
pub proof fn lemma_value_is_exact(expr: Expr)
    ensures
        value(expr) matches Ok(v) ==> meaning(expr) == Some(v),
        value(expr) == Err::<int, EvalError>(EvalError::DivisionByZero) ==> meaning(expr) is None,
    decreases expr,
{
    match expr {
        Expr::Number(n) => {},
        Expr::PrefixExpr { operator: _, right } => {
            lemma_value_is_exact(*right);
        },
        Expr::InfixExpr { left, operator, right } => {
            lemma_value_is_exact(*left);
            lemma_value_is_exact(*right);
        },
    }
}

/// A division has no value if its right operand has the value zero.
pub proof fn lemma_division_by_zero(left: Expr, right: Expr)
    requires
        value(left) is Ok,
        value(right) == Ok::<int, EvalError>(0),
    ensures
        value(
            Expr::InfixExpr {
                left: Box::new(left),
                operator: InfixOp::Divides,
                right: Box::new(right),
            },
        ) == Err::<int, EvalError>(EvalError::DivisionByZero),
{
}

/// Every value lies in the range of the evaluator.
pub proof fn lemma_value_in_range(expr: Expr)
    ensures
        value(expr) matches Ok(v) ==> i128::MIN <= v <= i128::MAX,
    decreases expr,
{
    match expr {
        Expr::Number(n) => {},
        Expr::PrefixExpr { operator: _, right } => {
            lemma_value_in_range(*right);
        },
        Expr::InfixExpr { left, operator, right } => {
            lemma_value_in_range(*left);
            lemma_value_in_range(*right);
        },
    }
}

/// Evaluates `expr`. The tree is not changed.
pub fn eval(expr: &Expr) -> (r: Result<i128, EvalError>)
    ensures
        match r {
            Ok(v) => value(*expr) == Ok::<int, EvalError>(v as int),
            Err(e) => value(*expr) == Err::<int, EvalError>(e),
        },
    decreases expr,
{
    proof {
        lemma_value_in_range(*expr);
    }
    match expr {
        Expr::Number(n) => Ok(*n as i128),
        Expr::PrefixExpr { operator: _, right } => {
            let v = eval(right)?;
            proof {
                lemma_value_in_range(**right);
            }
            let zero: i128 = 0;
            match zero.checked_sub(v) {
                Some(negated) => Ok(negated),
                None => Err(EvalError::Overflow),
            }
        },
        Expr::InfixExpr { left, operator, right } => {
            let l = eval(left)?;
            let r = eval(right)?;
            proof {
                lemma_value_in_range(**left);
                lemma_value_in_range(**right);
            }
            let applied = match operator {
                InfixOp::Plus => l.checked_add(r),
                InfixOp::Minus => l.checked_sub(r),
                InfixOp::Times => l.checked_mul(r),
                InfixOp::Divides => {
                    if r == 0 {
                        return Err(EvalError::DivisionByZero);
                    }
                    l.checked_div(r)
                },
            };
            match applied {
                Some(v) => Ok(v),
                None => Err(EvalError::Overflow),
            }
        },
    }
}

} // verus!
