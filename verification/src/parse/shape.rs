use vstd::prelude::*;
use crate::ast::nodes::{Expression, Operator};
use crate::ast::tokens::Token;
use crate::parse::grammar::{
    expression_at,
    expression_tail,
    factor_at,
    is_additive,
    is_multiplicative,
    lemma_expression_advances,
    lemma_factor_advances,
    lemma_term_advances,
    parse_outcome,
    read,
    term_at,
    term_tail,
    unexpected_end,
    unexpected_token,
    Outcome,
};

verus! {

/// The tokens that a tree stands for, in the order of the text: a binary
/// node is its left operand, its operator and its right operand, a
/// parenthesized node is its content between the two parentheses.
pub open spec fn expression_tokens(expression: Expression) -> Seq<Token>
    decreases expression,
{
    match expression {
        Expression::Literal(value) => seq![Token::NumberLiteral(value)],
        Expression::Binary { left, operator, right } => expression_tokens(*left) + seq![
            Token::Operator(operator),
        ] + expression_tokens(*right),
        Expression::Parenthesized(inner) => seq![Token::OpeningParenthesis] + expression_tokens(
            *inner,
        ) + seq![Token::ClosingParenthesis],
    }
}

/// Whether a tree has the shape of a factor: a literal, or a parenthesized
/// tree with the shape of an expression.
pub open spec fn is_factor(expression: Expression) -> bool
    decreases expression, 0int,
{
    match expression {
        Expression::Literal(_) => true,
        Expression::Binary { .. } => false,
        Expression::Parenthesized(inner) => is_expression(*inner),
    }
}

/// Whether a tree has the shape of a term: a factor, or a product or
/// quotient of a term on the left and a factor on the right.
pub open spec fn is_term(expression: Expression) -> bool
    decreases expression, 1int,
{
    is_factor(expression) || match expression {
        Expression::Binary { left, operator, right } => {
            &&& operator == Operator::Multiply || operator == Operator::Divide
            &&& is_term(*left)
            &&& is_factor(*right)
        },
        _ => false,
    }
}

/// Whether a tree has the shape that the grammar gives an expression: a
/// term, or a sum or difference of an expression on the left and a term on
/// the right. Such a tree groups to the right or against precedence only
/// through parenthesized nodes.
pub open spec fn is_expression(expression: Expression) -> bool
    decreases expression, 2int,
{
    is_term(expression) || match expression {
        Expression::Binary { left, operator, right } => {
            &&& operator == Operator::Plus || operator == Operator::Minus
            &&& is_expression(*left)
            &&& is_term(*right)
        },
        _ => false,
    }
}

/// Whether the tokens from `pos` on begin with those of `expression`.
pub open spec fn stands_at(tokens: Seq<Token>, pos: int, expression: Expression) -> bool {
    &&& 0 <= pos
    &&& pos + expression_tokens(expression).len() <= tokens.len()
    &&& tokens.subrange(pos, pos + expression_tokens(expression).len()) == expression_tokens(
        expression,
    )
}

/// A tree stands for at least one token.
pub proof fn lemma_expression_tokens_nonempty(expression: Expression)
    ensures
        expression_tokens(expression).len() > 0,
    decreases expression,
{
    match expression {
        Expression::Literal(_) => {},
        Expression::Binary { left, operator, right } => {
            lemma_expression_tokens_nonempty(*left);
        },
        Expression::Parenthesized(inner) => {},
    }
}

/// Where a binary node stands, its left operand stands at the same place,
/// its operator behind that and its right operand behind the operator.
proof fn lemma_binary_stands(tokens: Seq<Token>, pos: int, expression: Expression)
    requires
        expression is Binary,
        stands_at(tokens, pos, expression),
    ensures
        stands_at(tokens, pos, *expression->left),
        tokens[pos + expression_tokens(*expression->left).len()] == Token::Operator(
            expression->operator,
        ),
        stands_at(
            tokens,
            pos + expression_tokens(*expression->left).len() + 1,
            *expression->right,
        ),
        expression_tokens(expression).len() == expression_tokens(*expression->left).len() + 1
            + expression_tokens(*expression->right).len(),
{
    let whole = expression_tokens(expression);
    let left = expression_tokens(*expression->left);
    let right = expression_tokens(*expression->right);
    let slice = tokens.subrange(pos, pos + whole.len());
    assert(whole =~= left + seq![Token::Operator(expression->operator)] + right);
    assert(tokens.subrange(pos, pos + left.len()) =~= left) by {
        assert forall|i: int| 0 <= i < left.len() implies tokens[pos + i] == left[i] by {
            assert(slice[i] == whole[i]);
        }
    }
    assert(slice[left.len() as int] == whole[left.len() as int]);
    assert(tokens.subrange(pos + left.len() + 1, pos + left.len() + 1 + right.len()) =~= right) by {
        assert forall|i: int| 0 <= i < right.len() implies tokens[pos + left.len() + 1 + i]
            == right[i] by {
            assert(slice[left.len() + 1 + i] == whole[left.len() + 1 + i]);
        }
    }
}

/// Where a parenthesized node stands, an opening parenthesis stands at the
/// same place, the content behind it and a closing parenthesis behind that.
proof fn lemma_parenthesized_stands(tokens: Seq<Token>, pos: int, expression: Expression)
    requires
        expression is Parenthesized,
        stands_at(tokens, pos, expression),
    ensures
        tokens[pos] == Token::OpeningParenthesis,
        stands_at(tokens, pos + 1, *expression->Parenthesized_0),
        tokens[pos + 1 + expression_tokens(*expression->Parenthesized_0).len()]
            == Token::ClosingParenthesis,
        expression_tokens(expression).len() == expression_tokens(
            *expression->Parenthesized_0,
        ).len() + 2,
{
    let whole = expression_tokens(expression);
    let inner = expression_tokens(*expression->Parenthesized_0);
    let slice = tokens.subrange(pos, pos + whole.len());
    assert(whole =~= seq![Token::OpeningParenthesis] + inner + seq![Token::ClosingParenthesis]);
    assert(slice[0] == whole[0]);
    assert(slice[inner.len() as int + 1] == whole[inner.len() as int + 1]);
    assert(tokens.subrange(pos + 1, pos + 1 + inner.len()) =~= inner) by {
        assert forall|i: int| 0 <= i < inner.len() implies tokens[pos + 1 + i] == inner[i] by {
            assert(slice[1 + i] == whole[1 + i]);
        }
    }
}

/// Where the tokens of a factor stand, the factor rule reads that factor.
pub proof fn lemma_factor_complete(tokens: Seq<Token>, pos: int, expression: Expression)
    requires
        is_factor(expression),
        stands_at(tokens, pos, expression),
    ensures
        factor_at(tokens, pos) == read(
            expression,
            pos + expression_tokens(expression).len(),
        ),
    decreases expression, 0int,
{
    match expression {
        Expression::Literal(value) => {
            assert(tokens.subrange(pos, pos + 1)[0] == Token::NumberLiteral(value));
        },
        Expression::Binary { .. } => {},
        Expression::Parenthesized(inner) => {
            lemma_parenthesized_stands(tokens, pos, expression);
            lemma_expression_complete(tokens, pos + 1, *inner);
        },
    }
}

/// Where the tokens of a term stand, the term rule reads its way to the end
/// of that term and goes on from there.
pub proof fn lemma_term_reaches(tokens: Seq<Token>, pos: int, expression: Expression)
    requires
        is_term(expression),
        stands_at(tokens, pos, expression),
    ensures
        term_at(tokens, pos) == term_tail(
            tokens,
            pos + expression_tokens(expression).len(),
            expression,
        ),
    decreases expression, 1int,
{
    lemma_expression_tokens_nonempty(expression);
    if is_factor(expression) {
        lemma_factor_complete(tokens, pos, expression);
    } else {
        match expression {
            Expression::Binary { left, operator, right } => {
                lemma_binary_stands(tokens, pos, expression);
                lemma_term_reaches(tokens, pos, *left);
                let middle = pos + expression_tokens(*left).len();
                lemma_factor_complete(tokens, middle + 1, *right);
                lemma_expression_tokens_nonempty(*right);
            },
            _ => {},
        }
    }
}

/// Where the tokens of a term stand and no `*` or `/` follows them, the
/// term rule reads that term.
pub proof fn lemma_term_complete(tokens: Seq<Token>, pos: int, expression: Expression)
    requires
        is_term(expression),
        stands_at(tokens, pos, expression),
        pos + expression_tokens(expression).len() < tokens.len() ==> !is_multiplicative(
            tokens[pos + expression_tokens(expression).len()],
        ),
    ensures
        term_at(tokens, pos) == read(
            expression,
            pos + expression_tokens(expression).len(),
        ),
    decreases expression, 2int,
{
    lemma_term_reaches(tokens, pos, expression);
}

/// Where the tokens of an expression stand and no `*` or `/` follows them,
/// the expression rule reads its way to the end of that expression and goes
/// on from there.
pub proof fn lemma_expression_reaches(tokens: Seq<Token>, pos: int, expression: Expression)
    requires
        is_expression(expression),
        stands_at(tokens, pos, expression),
        pos + expression_tokens(expression).len() < tokens.len() ==> !is_multiplicative(
            tokens[pos + expression_tokens(expression).len()],
        ),
    ensures
        expression_at(tokens, pos) == expression_tail(
            tokens,
            pos + expression_tokens(expression).len(),
            expression,
        ),
    decreases expression, 3int,
{
    lemma_expression_tokens_nonempty(expression);
    if is_term(expression) {
        lemma_term_complete(tokens, pos, expression);
    } else {
        match expression {
            Expression::Binary { left, operator, right } => {
                lemma_binary_stands(tokens, pos, expression);
                lemma_expression_reaches(tokens, pos, *left);
                let middle = pos + expression_tokens(*left).len();
                lemma_term_complete(tokens, middle + 1, *right);
                lemma_expression_tokens_nonempty(*right);
            },
            _ => {},
        }
    }
}

/// Where the tokens of an expression stand and no operator follows them,
/// the expression rule reads that expression.
pub proof fn lemma_expression_complete(tokens: Seq<Token>, pos: int, expression: Expression)
    requires
        is_expression(expression),
        stands_at(tokens, pos, expression),
        pos + expression_tokens(expression).len() < tokens.len() ==> !is_multiplicative(
            tokens[pos + expression_tokens(expression).len()],
        ) && !is_additive(tokens[pos + expression_tokens(expression).len()]),
    ensures
        expression_at(tokens, pos) == read(
            expression,
            pos + expression_tokens(expression).len(),
        ),
    decreases expression, 4int,
{
    lemma_expression_reaches(tokens, pos, expression);
}

/// Putting an operator and a right operand behind a left operand that
/// stands at `start` gives a binary node that stands at `start`.
proof fn lemma_binary_built(
    tokens: Seq<Token>,
    start: int,
    pos: int,
    next: int,
    left: Expression,
    right: Expression,
)
    requires
        0 <= start <= pos < next <= tokens.len(),
        tokens[pos] is Operator,
        tokens.subrange(start, pos) == expression_tokens(left),
        tokens.subrange(pos + 1, next) == expression_tokens(right),
    ensures
        tokens.subrange(start, next) == expression_tokens(
            Expression::Binary {
                left: Box::new(left),
                operator: tokens[pos]->Operator_0,
                right: Box::new(right),
            },
        ),
{
    assert(tokens.subrange(start, next) =~= tokens.subrange(start, pos) + seq![tokens[pos]]
        + tokens.subrange(pos + 1, next));
}

/// What the factor rule reads has the shape of a factor and stands for the
/// tokens that the rule went over.
pub proof fn lemma_factor_sound(tokens: Seq<Token>, pos: int)
    ensures
        factor_at(tokens, pos) matches Ok(parsed) ==> is_factor(parsed.expression)
            && tokens.subrange(pos, parsed.next) == expression_tokens(parsed.expression),
    decreases tokens.len() - pos, 0int,
{
    lemma_factor_advances(tokens, pos);
    if let Ok(parsed) = factor_at(tokens, pos) {
        match tokens[pos] {
            Token::NumberLiteral(value) => {
                assert(tokens.subrange(pos, pos + 1) =~= seq![tokens[pos]]);
            },
            Token::OpeningParenthesis => {
                lemma_expression_sound(tokens, pos + 1);
                lemma_expression_advances(tokens, pos + 1);
                let inner = expression_at(tokens, pos + 1)->Ok_0;
                assert(tokens.subrange(pos, parsed.next) =~= seq![tokens[pos]] + tokens.subrange(
                    pos + 1,
                    inner.next,
                ) + seq![tokens[inner.next]]);
            },
            _ => {},
        }
    }
}

/// What the repetition behind a term reads, together with a term that
/// stands from `start` to `pos`, has the shape of a term and stands for
/// the tokens from `start` on.
pub proof fn lemma_term_tail_sound(tokens: Seq<Token>, start: int, pos: int, left: Expression)
    requires
        0 <= start <= pos <= tokens.len(),
        is_term(left),
        tokens.subrange(start, pos) == expression_tokens(left),
    ensures
        term_tail(tokens, pos, left) matches Ok(parsed) ==> is_term(parsed.expression)
            && tokens.subrange(start, parsed.next) == expression_tokens(parsed.expression),
    decreases tokens.len() - pos, 1int,
{
    if pos < tokens.len() && is_multiplicative(tokens[pos]) {
        lemma_factor_advances(tokens, pos + 1);
        lemma_factor_sound(tokens, pos + 1);
        if let Ok(right) = factor_at(tokens, pos + 1) {
            let joined = Expression::Binary {
                left: Box::new(left),
                operator: tokens[pos]->Operator_0,
                right: Box::new(right.expression),
            };
            lemma_binary_built(tokens, start, pos, right.next, left, right.expression);
            lemma_term_tail_sound(tokens, start, right.next, joined);
        }
    }
}

/// What the term rule reads has the shape of a term and stands for the
/// tokens that the rule went over.
pub proof fn lemma_term_sound(tokens: Seq<Token>, pos: int)
    ensures
        term_at(tokens, pos) matches Ok(parsed) ==> is_term(parsed.expression) && tokens.subrange(
            pos,
            parsed.next,
        ) == expression_tokens(parsed.expression),
    decreases tokens.len() - pos, 2int,
{
    lemma_factor_advances(tokens, pos);
    lemma_factor_sound(tokens, pos);
    if let Ok(first) = factor_at(tokens, pos) {
        lemma_term_tail_sound(tokens, pos, first.next, first.expression);
    }
}

/// What the repetition behind an expression reads, together with an
/// expression that stands from `start` to `pos`, has the shape of an
/// expression and stands for the tokens from `start` on.
pub proof fn lemma_expression_tail_sound(tokens: Seq<Token>, start: int, pos: int, left: Expression)
    requires
        0 <= start <= pos <= tokens.len(),
        is_expression(left),
        tokens.subrange(start, pos) == expression_tokens(left),
    ensures
        expression_tail(tokens, pos, left) matches Ok(parsed) ==> is_expression(parsed.expression)
            && tokens.subrange(start, parsed.next) == expression_tokens(parsed.expression),
    decreases tokens.len() - pos, 3int,
{
    if pos < tokens.len() && is_additive(tokens[pos]) {
        lemma_term_advances(tokens, pos + 1);
        lemma_term_sound(tokens, pos + 1);
        if let Ok(right) = term_at(tokens, pos + 1) {
            let joined = Expression::Binary {
                left: Box::new(left),
                operator: tokens[pos]->Operator_0,
                right: Box::new(right.expression),
            };
            lemma_binary_built(tokens, start, pos, right.next, left, right.expression);
            lemma_expression_tail_sound(tokens, start, right.next, joined);
        }
    }
}

/// What the expression rule reads has the shape of an expression and
/// stands for the tokens that the rule went over.
pub proof fn lemma_expression_sound(tokens: Seq<Token>, pos: int)
    ensures
        expression_at(tokens, pos) matches Ok(parsed) ==> is_expression(parsed.expression)
            && tokens.subrange(pos, parsed.next) == expression_tokens(parsed.expression),
    decreases tokens.len() - pos, 4int,
{
    lemma_term_advances(tokens, pos);
    lemma_term_sound(tokens, pos);
    if let Ok(first) = term_at(tokens, pos) {
        lemma_expression_tail_sound(tokens, pos, first.next, first.expression);
    }
}

/// Parsing gives a tree exactly where it gives no diagnostic, and never
/// more than one diagnostic.
pub proof fn lemma_tree_or_diagnostic(tokens: Seq<Token>)
    ensures
        parse_outcome(tokens).ast is Some <==> parse_outcome(tokens).errors.len() == 0,
        parse_outcome(tokens).errors.len() <= 1,
{
}

/// Parsing gives the tree `expression` exactly where `expression` has the
/// shape that the grammar gives an expression and the tokens are those it
/// stands for. So the tokens of such a tree are parsed back to that tree
/// without a diagnostic, and nothing else is parsed to it.
pub proof fn lemma_parse_characterized(tokens: Seq<Token>, expression: Expression)
    ensures
        parse_outcome(tokens).ast == Some(expression) <==> is_expression(expression) && tokens
            == expression_tokens(expression),
{
    if parse_outcome(tokens).ast == Some(expression) {
        lemma_expression_sound(tokens, 0);
        lemma_expression_advances(tokens, 0);
        assert(tokens.subrange(0, tokens.len() as int) =~= tokens);
    }
    if is_expression(expression) && tokens == expression_tokens(expression) {
        assert(tokens.subrange(0, tokens.len() as int) =~= tokens);
        lemma_expression_complete(tokens, 0, expression);
    }
}

/// Where the tokens of a tree with the shape of an expression are followed
/// by a token that is no operator, that token is unexpected, it is the
/// only diagnostic, and there is no tree, though the tokens before it are
/// parsed to that tree when they stand alone.
pub proof fn lemma_trailing_token(expression: Expression, rest: Seq<Token>)
    requires
        is_expression(expression),
        rest.len() > 0,
        !(rest[0] is Operator),
    ensures
        parse_outcome(expression_tokens(expression)).ast == Some(expression),
        parse_outcome(expression_tokens(expression) + rest) == (Outcome {
            ast: None,
            errors: seq![
                unexpected_token(
                    expression_tokens(expression) + rest,
                    expression_tokens(expression).len() as int,
                    None,
                ),
            ],
        }),
{
    let own = expression_tokens(expression);
    let tokens = own + rest;
    lemma_parse_characterized(own, expression);
    assert(tokens.subrange(0, own.len() as int) =~= own);
    assert(tokens[own.len() as int] == rest[0]);
    lemma_expression_complete(tokens, 0, expression);
}

/// Where an opening parenthesis and the tokens of a tree with the shape of
/// an expression are all the tokens, the end of the tokens is unexpected
/// where the closing parenthesis is due, that is the only diagnostic, and
/// there is no tree.
pub proof fn lemma_unclosed_parenthesis(expression: Expression)
    requires
        is_expression(expression),
    ensures
        parse_outcome(seq![Token::OpeningParenthesis] + expression_tokens(expression)) == (Outcome {
            ast: None,
            errors: seq![
                unexpected_end(
                    expression_tokens(expression).len() as int + 1,
                    Some(Token::ClosingParenthesis),
                ),
            ],
        }),
{
    let own = expression_tokens(expression);
    let tokens = seq![Token::OpeningParenthesis] + own;
    assert(tokens.subrange(1, 1 + own.len() as int) =~= own);
    lemma_expression_complete(tokens, 1, expression);
}

} // verus!
