use vstd::prelude::*;
use crate::ast::nodes::Operator;

verus! {

/// A lexical unit of an expression.
#[derive(Clone, Copy, PartialEq, Eq, Debug, Structural)]
pub enum Token {
    Operator(Operator),
    OpeningParenthesis,
    ClosingParenthesis,
    NumberLiteral(i32),
}

impl Token {
    /// The operator that this token stands for, if it is one.
    pub fn to_operator(&self) -> (r: Option<Operator>)
        ensures
            r == match *self {
                Token::Operator(op) => Some(op),
                _ => None,
            },
    {
        if let Token::Operator(op) = self {
            Some(*op)
        } else {
            None
        }
    }
}

} // verus!
