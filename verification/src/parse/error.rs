use vstd::prelude::*;
use vstd::string::StringExecFns;
use crate::ast::nodes::Operator;
use crate::ast::render::{decimal, integer_text, push_decimal, push_integer, Render};
use crate::ast::tokens::Token;

verus! {

/// A diagnostic of the tokenizer or of the parser.
///
/// Positions count from zero. Those of the tokenizer count the characters
/// of the input, those of the parser count its tokens; where the parser
/// ran out of tokens, the index is the number of tokens, one past the last.
/// The offending text is borrowed from the input.
#[derive(Clone, Copy, PartialEq, Eq, Debug)]
pub enum ErrorKind<'a> {
    /// A character that starts no token and is no whitespace.
    InvalidSymbol { contents: &'a str, pos: usize },
    /// A run of digits whose value no `i32` holds; `start` and `end` are the
    /// positions of its first and its last digit.
    InvalidNumber { contents: &'a str, start: usize, end: usize },
    /// A token at a place where the grammar does not admit it.
    UnexpectedToken { got: Token, expected: Option<Token>, index: usize },
    /// The end of the tokens at a place where the grammar wants one more.
    UnexpectedEndOfExpression { index: usize, expected: Option<Token> },
}

/// What a diagnostic says, with the offending text as a sequence of
/// characters and the positions as integers.
pub enum ErrorModel {
    InvalidSymbol { contents: Seq<char>, pos: int },
    InvalidNumber { contents: Seq<char>, start: int, end: int },
    UnexpectedToken { got: Token, expected: Option<Token>, index: int },
    UnexpectedEndOfExpression { index: int, expected: Option<Token> },
}

impl<'a> View for ErrorKind<'a> {
    type V = ErrorModel;

    open spec fn view(&self) -> ErrorModel {
        match *self {
            ErrorKind::InvalidSymbol { contents, pos } => ErrorModel::InvalidSymbol {
                contents: contents@,
                pos: pos as int,
            },
            ErrorKind::InvalidNumber { contents, start, end } => ErrorModel::InvalidNumber {
                contents: contents@,
                start: start as int,
                end: end as int,
            },
            ErrorKind::UnexpectedToken { got, expected, index } => ErrorModel::UnexpectedToken {
                got,
                expected,
                index: index as int,
            },
            ErrorKind::UnexpectedEndOfExpression {
                index,
                expected,
            } => ErrorModel::UnexpectedEndOfExpression { index: index as int, expected },
        }
    }
}

/// The models of a sequence of diagnostics, in the same order.
pub open spec fn error_models<'a>(errors: Seq<ErrorKind<'a>>) -> Seq<ErrorModel> {
    Seq::new(errors.len(), |i: int| errors[i]@)
}

/// Appending a diagnostic appends its model.
pub proof fn lemma_error_models_push<'a>(errors: Seq<ErrorKind<'a>>, error: ErrorKind<'a>)
    ensures
        error_models(errors.push(error)) == error_models(errors).push(error@),
{
    assert(error_models(errors.push(error)) =~= error_models(errors).push(error@));
}

/// The name of an operator, as diagnostics show it.
pub open spec fn operator_name(operator: Operator) -> Seq<char> {
    match operator {
        Operator::Plus => "Plus"@,
        Operator::Minus => "Minus"@,
        Operator::Multiply => "Multiply"@,
        Operator::Divide => "Divide"@,
    }
}

/// A token as diagnostics show it: the variant's name, and its content in
/// parentheses where it has one.
pub open spec fn token_name(token: Token) -> Seq<char> {
    match token {
        Token::Operator(operator) => "Operator("@ + operator_name(operator) + ")"@,
        Token::OpeningParenthesis => "OpeningParenthesis"@,
        Token::ClosingParenthesis => "ClosingParenthesis"@,
        Token::NumberLiteral(value) => "NumberLiteral("@ + integer_text(value as int) + ")"@,
    }
}

/// An expected token as diagnostics show it.
pub open spec fn expectation_name(expected: Option<Token>) -> Seq<char> {
    match expected {
        Some(token) => "Some("@ + token_name(token) + ")"@,
        None => "None"@,
    }
}

/// The message of a diagnostic. It names the kind, the offending text or
/// token and the position, and ends with a line feed.
pub open spec fn error_text(error: ErrorModel) -> Seq<char> {
    match error {
        ErrorModel::InvalidSymbol { contents, pos } => "Tokenizing Error: Invalid symbol '"@
            + contents + "' at position '"@ + decimal(pos as nat) + "'"@ + "\n"@,
        ErrorModel::InvalidNumber { contents, start, end } => "Tokenizing Error: Invalid number '"@
            + contents + "'\nat positions "@ + decimal(start as nat) + "-"@ + decimal(end as nat)
            + "'"@ + "\n"@,
        ErrorModel::UnexpectedToken { got, expected, index } => "Error: Unexpected token '"@
            + token_name(got) + "' at index '"@ + decimal(index as nat) + "'. Expected '"@
            + expectation_name(expected) + "'"@ + "\n"@,
        ErrorModel::UnexpectedEndOfExpression {
            index,
            expected,
        } => "Parsing Error: Unexpected end of expression at index "@ + decimal(index as nat)
            + "\nExpected '"@ + expectation_name(expected) + "'"@ + "\n"@,
    }
}

/// Appends the name of `token` to `buf`.
fn push_token_name(buf: &mut String, token: Token)
    ensures
        final(buf)@ == old(buf)@ + token_name(token),
{
    match token {
        Token::Operator(operator) => {
            buf.append("Operator(");
            let name = match operator {
                Operator::Plus => "Plus",
                Operator::Minus => "Minus",
                Operator::Multiply => "Multiply",
                Operator::Divide => "Divide",
            };
            buf.append(name);
            buf.append(")");
        },
        Token::OpeningParenthesis => buf.append("OpeningParenthesis"),
        Token::ClosingParenthesis => buf.append("ClosingParenthesis"),
        Token::NumberLiteral(value) => {
            buf.append("NumberLiteral(");
            push_integer(buf, value as i64);
            buf.append(")");
        },
    }
    assert(buf@ =~= old(buf)@ + token_name(token));
}

/// Appends the name of an expected token to `buf`.
fn push_expectation_name(buf: &mut String, expected: Option<Token>)
    ensures
        final(buf)@ == old(buf)@ + expectation_name(expected),
{
    match expected {
        Some(token) => {
            buf.append("Some(");
            push_token_name(buf, token);
            buf.append(")");
        },
        None => buf.append("None"),
    }
    assert(buf@ =~= old(buf)@ + expectation_name(expected));
}

impl<'a> Render for ErrorKind<'a> {
    open spec fn text(&self) -> Seq<char> {
        error_text(self@)
    }

    fn render(&self, buf: &mut String) {
        match *self {
            ErrorKind::InvalidSymbol { contents, pos } => {
                buf.append("Tokenizing Error: Invalid symbol '");
                buf.append(contents);
                buf.append("' at position '");
                push_decimal(buf, pos as u64);
                buf.append("'");
            },
            ErrorKind::InvalidNumber { contents, start, end } => {
                buf.append("Tokenizing Error: Invalid number '");
                buf.append(contents);
                buf.append("'\nat positions ");
                push_decimal(buf, start as u64);
                buf.append("-");
                push_decimal(buf, end as u64);
                buf.append("'");
            },
            ErrorKind::UnexpectedToken { got, expected, index } => {
                buf.append("Error: Unexpected token '");
                push_token_name(buf, got);
                buf.append("' at index '");
                push_decimal(buf, index as u64);
                buf.append("'. Expected '");
                push_expectation_name(buf, expected);
                buf.append("'");
            },
            ErrorKind::UnexpectedEndOfExpression { index, expected } => {
                buf.append("Parsing Error: Unexpected end of expression at index ");
                push_decimal(buf, index as u64);
                buf.append("\nExpected '");
                push_expectation_name(buf, expected);
                buf.append("'");
            },
        }
        buf.append("\n");
        assert(buf@ =~= old(buf)@ + error_text(self@));
    }
}

} // verus!
