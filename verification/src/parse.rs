//! From text to tokens, and from tokens to a syntax tree.

pub mod error;
pub mod grammar;
pub mod parser;
pub mod round_trip;
pub mod shape;
pub mod tokenizer;
pub mod validity;
