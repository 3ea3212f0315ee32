use vstd::prelude::*;
use crate::ast::nodes::{Expression, Operator};

verus! {

/// Why an expression has no value.
#[derive(Clone, Copy, PartialEq, Eq, Debug, Structural)]
pub enum EvalError {
    /// The right operand of a division is zero.
    DivisionByZero,
    /// An operation's result lies outside the range of `i64`.
    Overflow,
}

/// Integer division that rounds toward zero, for a divisor other than zero.
pub open spec fn truncated_quotient(x: int, d: int) -> int
    recommends
        d != 0,
{
    if x >= 0 && d > 0 {
        x / d
    } else if x < 0 && d < 0 {
        (-x) / (-d)
    } else if x < 0 {
        -((-x) / d)
    } else {
        -(x / (-d))
    }
}

/// A mathematical result as the evaluator reports it: itself where it fits
/// in an `i64`, an overflow otherwise.
pub open spec fn in_range(v: int) -> Result<int, EvalError> {
    if i64::MIN <= v <= i64::MAX {
        Ok(v)
    } else {
        Err(EvalError::Overflow)
    }
}

/// The outcome of one operation on two operand values.
pub open spec fn apply(operator: Operator, left: int, right: int) -> Result<int, EvalError> {
    match operator {
        Operator::Plus => in_range(left + right),
        Operator::Minus => in_range(left - right),
        Operator::Multiply => in_range(left * right),
        Operator::Divide => if right == 0 {
            Err(EvalError::DivisionByZero)
        } else {
            in_range(truncated_quotient(left, right))
        },
    }
}

impl Expression {
    /// The value of the expression. The left operand is evaluated before the
    /// right one, and the first failure met in that order is the outcome.
    pub open spec fn value(self) -> Result<int, EvalError>
        decreases self,
    {
        match self {
            Expression::Literal(v) => Ok(v as int),
            Expression::Binary { left, operator, right } => match left.value() {
                Err(e) => Err(e),
                Ok(l) => match right.value() {
                    Err(e) => Err(e),
                    Ok(r) => apply(operator, l, r),
                },
            },
            Expression::Parenthesized(inner) => inner.value(),
        }
    }

    /// Reduces the expression to its value in 64-bit integer arithmetic,
    /// with division rounding toward zero.
    pub fn evaluate(&self) -> (r: Result<i64, EvalError>)
        ensures
            self.value() == match r {
                Ok(v) => Ok::<int, EvalError>(v as int),
                Err(e) => Err::<int, EvalError>(e),
            },
        decreases *self,
    {
        match self {
            Expression::Literal(v) => Ok(*v as i64),
            Expression::Binary { left, operator, right } => {
                let l = match left.evaluate() {
                    Ok(l) => l,
                    Err(e) => {
                        return Err(e);
                    },
                };
                let r = match right.evaluate() {
                    Ok(r) => r,
                    Err(e) => {
                        return Err(e);
                    },
                };
                apply_operator(*operator, l, r)
            },
            Expression::Parenthesized(inner) => inner.evaluate(),
        }
    }
}

/// Applies one operator to two operand values.
pub fn apply_operator(operator: Operator, left: i64, right: i64) -> (r: Result<i64, EvalError>)
    ensures
        apply(operator, left as int, right as int) == match r {
            Ok(v) => Ok::<int, EvalError>(v as int),
            Err(e) => Err::<int, EvalError>(e),
        },
{
    let outcome = match operator {
        Operator::Plus => left.checked_add(right),
        Operator::Minus => left.checked_sub(right),
        Operator::Multiply => left.checked_mul(right),
        Operator::Divide => {
            if right == 0 {
                return Err(EvalError::DivisionByZero);
            }
            left.checked_div(right)
        },
    };
    match outcome {
        Some(v) => Ok(v),
        None => Err(EvalError::Overflow),
    }
}

} // verus!
