//! Arithmetic expressions over integer literals, `+ - * /` and parentheses:
//! a tokenizer, a recursive-descent parser, an evaluator and a renderer,
//! each with a contract over a mathematical model of its input and output.

pub mod ast;
pub mod eval;
pub mod parse;
pub mod report;
