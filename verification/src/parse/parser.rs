use vstd::prelude::*;
use crate::ast::nodes::{Expression, Operator};
use crate::ast::tokens::Token;
use crate::parse::error::{error_models, lemma_error_models_push, ErrorKind, ErrorModel};
use crate::parse::grammar::{
    expression_at,
    expression_tail,
    factor_at,
    lemma_expression_advances,
    lemma_factor_advances,
    lemma_term_advances,
    parse_outcome,
    term_at,
    term_tail,
    unexpected_end,
    unexpected_token,
    Parsed,
};

verus! {

/// A recursive-descent parser over one sequence of tokens. It can be run
/// any number of times: each run starts from the first token with an empty
/// list of diagnostics.
pub struct Parser<'a> {
    input: &'a Vec<Token>,
    errors: Vec<ErrorKind<'a>>,
    pos: usize,
}

impl<'a> Parser<'a> {
    /// The tokens that the parser reads.
    pub closed spec fn tokens(&self) -> Seq<Token> {
        self.input@
    }

    /// Whether running a rule from the state `before` has led to the state
    /// `self` with the result `result`, as the rule's reading `expected`
    /// says: on success the tree is handed out, the cursor stands behind
    /// it and no diagnostic is added; on failure there is no tree and the
    /// rule's diagnostic is the one added.
    spec fn follows(
        &self,
        before: &Self,
        expected: Result<Parsed, ErrorModel>,
        result: Option<Expression>,
    ) -> bool {
        &&& self.input == before.input
        &&& match expected {
            Ok(parsed) => {
                &&& result == Some(parsed.expression)
                &&& self.pos == parsed.next
                &&& self.errors == before.errors
            },
            Err(error) => {
                &&& result is None
                &&& error_models(self.errors@) == error_models(before.errors@).push(error)
            },
        }
    }

    /// A parser for `input`, with its cursor on the first token.
    pub fn new(input: &'a Vec<Token>) -> (r: Parser<'a>)
        ensures
            r.tokens() == input@,
    {
        Parser { input, errors: Vec::new(), pos: 0 }
    }

    /// The token under the cursor, if the cursor is within the tokens.
    fn current(&self) -> (r: Option<Token>)
        ensures
            self.input@.len() <= usize::MAX,
            r == if self.pos < self.input@.len() {
                Some(self.input@[self.pos as int])
            } else {
                None
            },
    {
        if self.pos < self.input.len() {
            Some(self.input[self.pos])
        } else {
            None
        }
    }

    /// Puts the cursor on the first token and empties the list of
    /// diagnostics.
    fn reset(&mut self)
        ensures
            final(self).input == old(self).input,
            final(self).pos == 0,
            final(self).errors@.len() == 0,
    {
        self.pos = 0;
        self.errors.clear();
    }

    /// Reads an expression from the cursor on.
    fn parse_expression(&mut self) -> (r: Option<Expression>)
        requires
            old(self).pos <= old(self).input@.len(),
        ensures
            final(self).follows(old(self), expression_at(old(self).input@, old(self).pos as int), r),
        decreases old(self).input@.len() - old(self).pos, 4int,
    {
        let ghost tokens = self.input@;
        let ghost start = self.pos as int;
        proof {
            lemma_term_advances(tokens, start);
        }
        let first = self.parse_term();
        if first.is_none() {
            return None;
        }
        let mut expression = first.unwrap();
        loop
            invariant
                self.input == old(self).input,
                self.errors == old(self).errors,
                tokens == self.input@,
                start == old(self).pos,
                start < self.pos <= tokens.len(),
                expression_tail(tokens, self.pos as int, expression) == expression_at(
                    tokens,
                    start,
                ),
            ensures
                self.follows(old(self), expression_at(tokens, start), Some(expression)),
            decreases tokens.len() - self.pos,
        {
            let token = match self.current() {
                Some(token) => token,
                None => {
                    break ;
                },
            };
            let operator = match token {
                Token::Operator(Operator::Plus) => Operator::Plus,
                Token::Operator(Operator::Minus) => Operator::Minus,
                _ => {
                    break ;
                },
            };
            self.pos += 1;
            proof {
                lemma_term_advances(tokens, self.pos as int);
            }
            let right = self.parse_term();
            if right.is_none() {
                return None;
            }
            expression =
            Expression::Binary {
                left: Box::new(expression),
                operator,
                right: Box::new(right.unwrap()),
            };
        }
        Some(expression)
    }

    /// Reads a term from the cursor on.
    fn parse_term(&mut self) -> (r: Option<Expression>)
        requires
            old(self).pos <= old(self).input@.len(),
        ensures
            final(self).follows(old(self), term_at(old(self).input@, old(self).pos as int), r),
        decreases old(self).input@.len() - old(self).pos, 2int,
    {
        let ghost tokens = self.input@;
        let ghost start = self.pos as int;
        proof {
            lemma_factor_advances(tokens, start);
        }
        let first = self.parse_factor();
        if first.is_none() {
            return None;
        }
        let mut expression = first.unwrap();
        loop
            invariant
                self.input == old(self).input,
                self.errors == old(self).errors,
                tokens == self.input@,
                start == old(self).pos,
                start < self.pos <= tokens.len(),
                term_tail(tokens, self.pos as int, expression) == term_at(tokens, start),
            ensures
                self.follows(old(self), term_at(tokens, start), Some(expression)),
            decreases tokens.len() - self.pos,
        {
            let token = match self.current() {
                Some(token) => token,
                None => {
                    break ;
                },
            };
            let operator = match token {
                Token::Operator(Operator::Multiply) => Operator::Multiply,
                Token::Operator(Operator::Divide) => Operator::Divide,
                _ => {
                    break ;
                },
            };
            self.pos += 1;
            proof {
                lemma_factor_advances(tokens, self.pos as int);
            }
            let right = self.parse_factor();
            if right.is_none() {
                return None;
            }
            expression =
            Expression::Binary {
                left: Box::new(expression),
                operator,
                right: Box::new(right.unwrap()),
            };
        }
        Some(expression)
    }

    /// Reads a factor from the cursor on.
    fn parse_factor(&mut self) -> (r: Option<Expression>)
        requires
            old(self).pos <= old(self).input@.len(),
        ensures
            final(self).follows(old(self), factor_at(old(self).input@, old(self).pos as int), r),
        decreases old(self).input@.len() - old(self).pos, 0int,
    {
        let current = match self.current() {
            Some(token) => token,
            None => {
                self.unexpected_end(Some(Token::NumberLiteral(0)));
                return None;
            },
        };
        match current {
            Token::NumberLiteral(literal) => {
                self.pos += 1;
                Some(Expression::Literal(literal))
            },
            Token::OpeningParenthesis => {
                self.pos += 1;
                proof {
                    lemma_expression_advances(self.input@, self.pos as int);
                }
                let expression = self.parse_expression();
                if expression.is_none() {
                    return None;
                }
                if !self.ensure_current_tok(Token::ClosingParenthesis) {
                    return None;
                }
                self.pos += 1;
                Some(Expression::Parenthesized(Box::new(expression.unwrap())))
            },
            token => {
                let error = ErrorKind::UnexpectedToken { got: token, expected: None, index: self.pos };
                proof {
                    lemma_error_models_push(self.errors@, error);
                }
                self.errors.push(error);
                None
            },
        }
    }

    /// Whether the token under the cursor is `expected`. Where it is not,
    /// or where there is none, the diagnostic that says so is added.
    fn ensure_current_tok(&mut self, expected: Token) -> (r: bool)
        ensures
            final(self).input == old(self).input,
            final(self).pos == old(self).pos,
            r == (old(self).pos < old(self).input@.len() && old(self).input@[old(self).pos as int]
                == expected),
            r ==> final(self).errors == old(self).errors,
            !r ==> error_models(final(self).errors@) == error_models(old(self).errors@).push(
                if old(self).pos < old(self).input@.len() {
                    unexpected_token(old(self).input@, old(self).pos as int, Some(expected))
                } else {
                    unexpected_end(old(self).pos as int, Some(expected))
                },
            ),
    {
        let token = match self.current() {
            Some(token) => token,
            None => {
                self.unexpected_end(Some(expected));
                return false;
            },
        };
        if token != expected {
            let error = ErrorKind::UnexpectedToken {
                got: token,
                expected: Some(expected),
                index: self.pos,
            };
            proof {
                lemma_error_models_push(self.errors@, error);
            }
            self.errors.push(error);
            return false;
        }
        true
    }

    /// Adds the diagnostic for tokens that end under the cursor.
    fn unexpected_end(&mut self, expected: Option<Token>)
        ensures
            final(self).input == old(self).input,
            final(self).pos == old(self).pos,
            error_models(final(self).errors@) == error_models(old(self).errors@).push(
                unexpected_end(old(self).pos as int, expected),
            ),
    {
        let error = ErrorKind::UnexpectedEndOfExpression { expected, index: self.pos };
        proof {
            lemma_error_models_push(self.errors@, error);
        }
        self.errors.push(error);
    }

    /// Reads the tokens as one expression and gives the tree, if they are
    /// one, and the diagnostics.
    ///
    /// There is a tree exactly where there is no diagnostic. A rule that
    /// fails adds its diagnostic and nothing is added for the rules around
    /// it. A token left over behind a complete expression is unexpected
    /// and takes the tree away.
    pub fn parse(&mut self) -> (r: (Option<Expression>, Vec<ErrorKind<'a>>))
        ensures
            final(self).tokens() == old(self).tokens(),
            r.0 == parse_outcome(old(self).tokens()).ast,
            error_models(r.1@) == parse_outcome(old(self).tokens()).errors,
    {
        self.reset();
        assert(error_models(self.errors@) =~= Seq::<ErrorModel>::empty());
        let result = self.parse_expression();
        if result.is_none() {
            assert(error_models(self.errors@) =~= parse_outcome(self.input@).errors);
            return (None, self.errors.clone());
        }
        proof {
            lemma_expression_advances(self.input@, 0);
        }
        match self.current() {
            Some(token) => {
                let error = ErrorKind::UnexpectedToken { got: token, expected: None, index: self.pos };
                proof {
                    lemma_error_models_push(self.errors@, error);
                    assert(error_models(self.errors@.push(error)) =~= parse_outcome(
                        self.input@,
                    ).errors);
                }
                self.errors.push(error);
                (None, self.errors.clone())
            },
            None => (result, self.errors.clone()),
        }
    }
}

} // verus!
