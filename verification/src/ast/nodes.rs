use vstd::prelude::*;

verus! {

/// A binary arithmetic operator.
#[derive(Clone, Copy, PartialEq, Eq, Debug, Structural)]
pub enum Operator {
    Plus,
    Minus,
    Multiply,
    Divide,
}

/// A node of the syntax tree.
///
/// `Parenthesized` keeps the grouping that the source text had, so that the
/// tree can be rendered back without adding or losing parentheses; it has no
/// effect on the value.
#[derive(Debug, PartialEq, Eq)]
pub enum Expression {
    Literal(i32),
    Binary { left: Box<Expression>, operator: Operator, right: Box<Expression> },
    Parenthesized(Box<Expression>),
}

impl Clone for Expression {
    fn clone(&self) -> (r: Self)
        ensures
            r == *self,
        decreases *self,
    {
        match self {
            Expression::Literal(value) => Expression::Literal(*value),
            Expression::Binary { left, operator, right } => Expression::Binary {
                left: Box::new((**left).clone()),
                operator: *operator,
                right: Box::new((**right).clone()),
            },
            Expression::Parenthesized(inner) => Expression::Parenthesized(
                Box::new((**inner).clone()),
            ),
        }
    }
}

} // verus!
