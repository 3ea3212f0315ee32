use vstd::prelude::*;
use crate::ast::nodes::{Expression, Operator};
use crate::ast::tokens::Token;
use crate::parse::error::ErrorModel;

verus! {

/// Whether `token` is `+` or `-`.
pub open spec fn is_additive(token: Token) -> bool {
    token == Token::Operator(Operator::Plus) || token == Token::Operator(Operator::Minus)
}

/// Whether `token` is `*` or `/`.
pub open spec fn is_multiplicative(token: Token) -> bool {
    token == Token::Operator(Operator::Multiply) || token == Token::Operator(Operator::Divide)
}

/// A tree that one rule of the grammar has read, and the position of the
/// first token after it.
pub struct Parsed {
    pub expression: Expression,
    pub next: int,
}

/// The success of a rule that has read `expression` and stopped before the
/// token at `next`.
pub open spec fn read(expression: Expression, next: int) -> Result<Parsed, ErrorModel> {
    Ok(Parsed { expression, next })
}

/// The diagnostic for a token that stands where the grammar admits none.
pub open spec fn unexpected_token(
    tokens: Seq<Token>,
    index: int,
    expected: Option<Token>,
) -> ErrorModel {
    ErrorModel::UnexpectedToken { got: tokens[index], expected, index }
}

/// The diagnostic for tokens that end where the grammar wants one more.
pub open spec fn unexpected_end(index: int, expected: Option<Token>) -> ErrorModel {
    ErrorModel::UnexpectedEndOfExpression { index, expected }
}

/// The rule `factor := NUMBER | '(' expression ')'`, read from `pos`.
///
/// Where the tokens end before a factor, the diagnostic expects a number,
/// for which the literal zero stands.
pub open spec fn factor_at(tokens: Seq<Token>, pos: int) -> Result<Parsed, ErrorModel>
    decreases tokens.len() - pos, 0int,
{
    if pos < 0 || pos >= tokens.len() {
        Err(unexpected_end(pos, Some(Token::NumberLiteral(0))))
    } else {
        match tokens[pos] {
            Token::NumberLiteral(value) => Ok(
                Parsed { expression: Expression::Literal(value), next: pos + 1 },
            ),
            Token::OpeningParenthesis => match expression_at(tokens, pos + 1) {
                Err(error) => Err(error),
                Ok(inner) => if inner.next >= tokens.len() {
                    Err(unexpected_end(inner.next, Some(Token::ClosingParenthesis)))
                } else if tokens[inner.next] != Token::ClosingParenthesis {
                    Err(unexpected_token(tokens, inner.next, Some(Token::ClosingParenthesis)))
                } else {
                    Ok(
                        Parsed {
                            expression: Expression::Parenthesized(Box::new(inner.expression)),
                            next: inner.next + 1,
                        },
                    )
                },
            },
            _ => Err(unexpected_token(tokens, pos, None)),
        }
    }
}

/// The repetition `( ('*' | '/') factor )*` behind a term `left` that ends
/// before `pos`: each round makes the term read so far the left operand of
/// a new binary node.
///
/// The test on `next` only bounds the recursion; `lemma_factor_advances`
/// shows that it never fails.
pub open spec fn term_tail(tokens: Seq<Token>, pos: int, left: Expression) -> Result<
    Parsed,
    ErrorModel,
>
    decreases tokens.len() - pos, 1int,
{
    if 0 <= pos < tokens.len() && is_multiplicative(tokens[pos]) {
        match factor_at(tokens, pos + 1) {
            Err(error) => Err(error),
            Ok(right) => if pos < right.next <= tokens.len() {
                term_tail(
                    tokens,
                    right.next,
                    Expression::Binary {
                        left: Box::new(left),
                        operator: tokens[pos]->Operator_0,
                        right: Box::new(right.expression),
                    },
                )
            } else {
                Ok(Parsed { expression: left, next: pos })
            },
        }
    } else {
        Ok(Parsed { expression: left, next: pos })
    }
}

/// The rule `term := factor ( ('*' | '/') factor )*`, read from `pos`.
///
/// The test on `next` only bounds the recursion; `lemma_factor_advances`
/// shows that it never fails.
pub open spec fn term_at(tokens: Seq<Token>, pos: int) -> Result<Parsed, ErrorModel>
    decreases tokens.len() - pos, 2int,
{
    match factor_at(tokens, pos) {
        Err(error) => Err(error),
        Ok(first) => if pos < first.next <= tokens.len() {
            term_tail(tokens, first.next, first.expression)
        } else {
            Ok(first)
        },
    }
}

/// The repetition `( ('+' | '-') term )*` behind an expression `left` that
/// ends before `pos`.
///
/// The test on `next` only bounds the recursion; `lemma_term_advances`
/// shows that it never fails.
pub open spec fn expression_tail(tokens: Seq<Token>, pos: int, left: Expression) -> Result<
    Parsed,
    ErrorModel,
>
    decreases tokens.len() - pos, 3int,
{
    if 0 <= pos < tokens.len() && is_additive(tokens[pos]) {
        match term_at(tokens, pos + 1) {
            Err(error) => Err(error),
            Ok(right) => if pos < right.next <= tokens.len() {
                expression_tail(
                    tokens,
                    right.next,
                    Expression::Binary {
                        left: Box::new(left),
                        operator: tokens[pos]->Operator_0,
                        right: Box::new(right.expression),
                    },
                )
            } else {
                Ok(Parsed { expression: left, next: pos })
            },
        }
    } else {
        Ok(Parsed { expression: left, next: pos })
    }
}

/// The rule `expression := term ( ('+' | '-') term )*`, read from `pos`.
///
/// The test on `next` only bounds the recursion; `lemma_term_advances`
/// shows that it never fails.
pub open spec fn expression_at(tokens: Seq<Token>, pos: int) -> Result<Parsed, ErrorModel>
    decreases tokens.len() - pos, 4int,
{
    match term_at(tokens, pos) {
        Err(error) => Err(error),
        Ok(first) => if pos < first.next <= tokens.len() {
            expression_tail(tokens, first.next, first.expression)
        } else {
            Ok(first)
        },
    }
}

/// What parsing yields: the tree, if the tokens are one expression, and
/// the diagnostics.
pub struct Outcome {
    pub ast: Option<Expression>,
    pub errors: Seq<ErrorModel>,
}

/// What parsing `tokens` yields.
///
/// The tokens are read as one expression from the first token on. Where
/// that fails, the diagnostic of the rule that failed is the only one. Where
/// it succeeds and a token is left over, that token is unexpected and there
/// is no tree. Otherwise the tree stands and there is no diagnostic.
pub open spec fn parse_outcome(tokens: Seq<Token>) -> Outcome {
    match expression_at(tokens, 0) {
        Err(error) => Outcome { ast: None, errors: seq![error] },
        Ok(parsed) => if parsed.next < tokens.len() {
            Outcome { ast: None, errors: seq![unexpected_token(tokens, parsed.next, None)] }
        } else {
            Outcome { ast: Some(parsed.expression), errors: Seq::empty() }
        },
    }
}

/// A factor that was read ends after its start and within the tokens.
pub proof fn lemma_factor_advances(tokens: Seq<Token>, pos: int)
    ensures
        factor_at(tokens, pos) matches Ok(parsed) ==> 0 <= pos < parsed.next <= tokens.len(),
    decreases tokens.len() - pos, 0int,
{
    if 0 <= pos < tokens.len() && tokens[pos] == Token::OpeningParenthesis {
        lemma_expression_advances(tokens, pos + 1);
    }
}

/// What the repetition behind a term reads ends at or after its start and
/// within the tokens.
pub proof fn lemma_term_tail_advances(tokens: Seq<Token>, pos: int, left: Expression)
    requires
        0 <= pos <= tokens.len(),
    ensures
        term_tail(tokens, pos, left) matches Ok(parsed) ==> pos <= parsed.next <= tokens.len(),
    decreases tokens.len() - pos, 1int,
{
    if pos < tokens.len() && is_multiplicative(tokens[pos]) {
        lemma_factor_advances(tokens, pos + 1);
        if let Ok(right) = factor_at(tokens, pos + 1) {
            lemma_term_tail_advances(
                tokens,
                right.next,
                Expression::Binary {
                    left: Box::new(left),
                    operator: tokens[pos]->Operator_0,
                    right: Box::new(right.expression),
                },
            );
        }
    }
}

/// A term that was read ends after its start and within the tokens.
pub proof fn lemma_term_advances(tokens: Seq<Token>, pos: int)
    ensures
        term_at(tokens, pos) matches Ok(parsed) ==> 0 <= pos < parsed.next <= tokens.len(),
    decreases tokens.len() - pos, 2int,
{
    lemma_factor_advances(tokens, pos);
    if let Ok(first) = factor_at(tokens, pos) {
        lemma_term_tail_advances(tokens, first.next, first.expression);
    }
}

/// What the repetition behind an expression reads ends at or after its
/// start and within the tokens.
pub proof fn lemma_expression_tail_advances(tokens: Seq<Token>, pos: int, left: Expression)
    requires
        0 <= pos <= tokens.len(),
    ensures
        expression_tail(tokens, pos, left) matches Ok(parsed) ==> pos <= parsed.next
            <= tokens.len(),
    decreases tokens.len() - pos, 3int,
{
    if pos < tokens.len() && is_additive(tokens[pos]) {
        lemma_term_advances(tokens, pos + 1);
        if let Ok(right) = term_at(tokens, pos + 1) {
            lemma_expression_tail_advances(
                tokens,
                right.next,
                Expression::Binary {
                    left: Box::new(left),
                    operator: tokens[pos]->Operator_0,
                    right: Box::new(right.expression),
                },
            );
        }
    }
}

/// An expression that was read ends after its start and within the tokens.
pub proof fn lemma_expression_advances(tokens: Seq<Token>, pos: int)
    ensures
        expression_at(tokens, pos) matches Ok(parsed) ==> 0 <= pos < parsed.next <= tokens.len(),
    decreases tokens.len() - pos, 4int,
{
    lemma_term_advances(tokens, pos);
    if let Ok(first) = term_at(tokens, pos) {
        lemma_expression_tail_advances(tokens, first.next, first.expression);
    }
}

} // verus!
