use arith_expr::ast::nodes::{Expression, Operator};
use arith_expr::ast::tokens::Token;
use arith_expr::parse::error::ErrorKind;
use arith_expr::parse::parser::Parser;
use arith_expr::parse::tokenizer::Tokenizer;

fn tokens_of(text: &str) -> Vec<Token> {
    let input = String::from(text);
    let mut tokenizer = Tokenizer::new(&input);
    let (tokens, errors) = tokenizer.tokenize();
    assert!(errors.is_empty());
    tokens
}

fn literal(value: i32) -> Expression {
    Expression::Literal(value)
}

fn binary(left: Expression, operator: Operator, right: Expression) -> Expression {
    Expression::Binary { left: Box::new(left), operator, right: Box::new(right) }
}

fn parenthesized(inner: Expression) -> Expression {
    Expression::Parenthesized(Box::new(inner))
}

#[test]
fn single_number_is_a_literal() {
    let tokens = tokens_of("42");
    let mut parser = Parser::new(&tokens);
    let (ast, errors) = parser.parse();
    assert_eq!(ast, Some(literal(42)));
    assert!(errors.is_empty());
}

#[test]
fn multiplication_binds_tighter_than_addition() {
    let tokens = tokens_of("2 + 3 * 4");
    let mut parser = Parser::new(&tokens);
    let (ast, errors) = parser.parse();
    assert_eq!(
        ast,
        Some(binary(
            literal(2),
            Operator::Plus,
            binary(literal(3), Operator::Multiply, literal(4))
        ))
    );
    assert!(errors.is_empty());
}

#[test]
fn operators_of_one_level_group_to_the_left() {
    let tokens = tokens_of("10 - 2 - 3");
    let mut parser = Parser::new(&tokens);
    let (ast, errors) = parser.parse();
    assert_eq!(
        ast,
        Some(binary(
            binary(literal(10), Operator::Minus, literal(2)),
            Operator::Minus,
            literal(3)
        ))
    );
    assert!(errors.is_empty());

    let tokens = tokens_of("8 / 4 * 2 / 1");
    let mut parser = Parser::new(&tokens);
    let (ast, errors) = parser.parse();
    assert_eq!(
        ast,
        Some(binary(
            binary(
                binary(literal(8), Operator::Divide, literal(4)),
                Operator::Multiply,
                literal(2)
            ),
            Operator::Divide,
            literal(1)
        ))
    );
    assert!(errors.is_empty());
}

#[test]
fn parentheses_are_kept_in_the_tree() {
    let tokens = tokens_of("(2 + 3) * 4");
    let mut parser = Parser::new(&tokens);
    let (ast, errors) = parser.parse();
    assert_eq!(
        ast,
        Some(binary(
            parenthesized(binary(literal(2), Operator::Plus, literal(3))),
            Operator::Multiply,
            literal(4)
        ))
    );
    assert!(errors.is_empty());
}

#[test]
fn nested_parentheses_are_kept() {
    let tokens = tokens_of("((7))");
    let mut parser = Parser::new(&tokens);
    let (ast, errors) = parser.parse();
    assert_eq!(ast, Some(parenthesized(parenthesized(literal(7)))));
    assert!(errors.is_empty());
}

#[test]
fn no_tokens_is_an_unexpected_end() {
    let tokens: Vec<Token> = Vec::new();
    let mut parser = Parser::new(&tokens);
    let (ast, errors) = parser.parse();
    assert_eq!(ast, None);
    assert_eq!(
        errors,
        vec![ErrorKind::UnexpectedEndOfExpression {
            index: 0,
            expected: Some(Token::NumberLiteral(0)),
        }]
    );
}

#[test]
fn unbalanced_parenthesis_is_one_unexpected_end() {
    let tokens = tokens_of("(1 + 2");
    let mut parser = Parser::new(&tokens);
    let (ast, errors) = parser.parse();
    assert_eq!(ast, None);
    assert_eq!(
        errors,
        vec![ErrorKind::UnexpectedEndOfExpression {
            index: 4,
            expected: Some(Token::ClosingParenthesis),
        }]
    );
}

#[test]
fn trailing_token_takes_the_tree_away() {
    let tokens = tokens_of("1 + 2");
    let mut parser = Parser::new(&tokens);
    let (ast, errors) = parser.parse();
    assert_eq!(ast, Some(binary(literal(1), Operator::Plus, literal(2))));
    assert!(errors.is_empty());

    let tokens = tokens_of("1 + 2 )");
    let mut parser = Parser::new(&tokens);
    let (ast, errors) = parser.parse();
    assert_eq!(ast, None);
    assert_eq!(
        errors,
        vec![ErrorKind::UnexpectedToken {
            got: Token::ClosingParenthesis,
            expected: None,
            index: 3,
        }]
    );
}

#[test]
fn trailing_number_is_unexpected() {
    let tokens = tokens_of("1 2");
    let mut parser = Parser::new(&tokens);
    let (ast, errors) = parser.parse();
    assert_eq!(ast, None);
    assert_eq!(
        errors,
        vec![ErrorKind::UnexpectedToken { got: Token::NumberLiteral(2), expected: None, index: 1 }]
    );
}

#[test]
fn sample_input_ends_where_a_factor_is_due() {
    let tokens = tokens_of("5 * 5 + (10 - 2) / ");
    let mut parser = Parser::new(&tokens);
    let (ast, errors) = parser.parse();
    assert_eq!(ast, None);
    assert_eq!(
        errors,
        vec![ErrorKind::UnexpectedEndOfExpression {
            index: 10,
            expected: Some(Token::NumberLiteral(0)),
        }]
    );
}

#[test]
fn operator_where_a_factor_is_due_is_unexpected() {
    let tokens = tokens_of("1 + * 2");
    let mut parser = Parser::new(&tokens);
    let (ast, errors) = parser.parse();
    assert_eq!(ast, None);
    assert_eq!(
        errors,
        vec![ErrorKind::UnexpectedToken {
            got: Token::Operator(Operator::Multiply),
            expected: None,
            index: 2,
        }]
    );
}

#[test]
fn closing_parenthesis_where_a_factor_is_due_is_unexpected() {
    let tokens = tokens_of(") 1");
    let mut parser = Parser::new(&tokens);
    let (ast, errors) = parser.parse();
    assert_eq!(ast, None);
    assert_eq!(
        errors,
        vec![ErrorKind::UnexpectedToken {
            got: Token::ClosingParenthesis,
            expected: None,
            index: 0,
        }]
    );
}

#[test]
fn token_in_place_of_closing_parenthesis_is_unexpected() {
    let tokens = tokens_of("(1 2)");
    let mut parser = Parser::new(&tokens);
    let (ast, errors) = parser.parse();
    assert_eq!(ast, None);
    assert_eq!(
        errors,
        vec![ErrorKind::UnexpectedToken {
            got: Token::NumberLiteral(2),
            expected: Some(Token::ClosingParenthesis),
            index: 2,
        }]
    );
}

#[test]
fn failed_rule_reports_once() {
    let tokens = tokens_of("1 + ) 2 3");
    let mut parser = Parser::new(&tokens);
    let (ast, errors) = parser.parse();
    assert_eq!(ast, None);
    assert_eq!(
        errors,
        vec![ErrorKind::UnexpectedToken {
            got: Token::ClosingParenthesis,
            expected: None,
            index: 2,
        }]
    );
}

#[test]
fn empty_parentheses_are_an_error() {
    let tokens = tokens_of("()");
    let mut parser = Parser::new(&tokens);
    let (ast, errors) = parser.parse();
    assert_eq!(ast, None);
    assert_eq!(
        errors,
        vec![ErrorKind::UnexpectedToken {
            got: Token::ClosingParenthesis,
            expected: None,
            index: 1,
        }]
    );
}

#[test]
fn parsing_twice_gives_the_same() {
    let tokens = tokens_of("(1 + 2");
    let mut parser = Parser::new(&tokens);
    let first = parser.parse();
    let second = parser.parse();
    assert_eq!(first, second);
    assert_eq!(first.1.len(), 1);

    let tokens = tokens_of("1 * (2 - 3)");
    let mut parser = Parser::new(&tokens);
    let first = parser.parse();
    let second = parser.parse();
    assert_eq!(first, second);
    assert!(first.0.is_some());
}

#[test]
fn negative_number_token_is_a_literal() {
    let tokens = vec![Token::NumberLiteral(-5), Token::Operator(Operator::Plus), Token::NumberLiteral(i32::MIN)];
    let mut parser = Parser::new(&tokens);
    let (ast, errors) = parser.parse();
    assert_eq!(ast, Some(binary(literal(-5), Operator::Plus, literal(i32::MIN))));
    assert!(errors.is_empty());
}

#[test]
fn tree_is_there_exactly_without_errors() {
    for text in ["1", "1 +", "(1", "1)", "1 + 2 * (3 - 4) / 5", "* 1", "((1)", "(1))", "1 1", ""] {
        let tokens = tokens_of(text);
        let mut parser = Parser::new(&tokens);
        let (ast, errors) = parser.parse();
        assert_eq!(ast.is_some(), errors.is_empty());
        assert!(errors.len() <= 1);
    }
}

#[test]
fn deeply_nested_input_is_parsed() {
    let mut text = String::new();
    for _ in 0..200 {
        text.push('(');
    }
    text.push('1');
    for _ in 0..200 {
        text.push(')');
    }
    let tokens = tokens_of(&text);
    let mut parser = Parser::new(&tokens);
    let (ast, errors) = parser.parse();
    assert!(errors.is_empty());
    let mut depth = 0;
    let mut node = ast.unwrap();
    while let Expression::Parenthesized(inner) = node {
        depth += 1;
        node = *inner;
    }
    assert_eq!(depth, 200);
    assert_eq!(node, literal(1));
}

#[test]
fn valid_inputs_give_a_tree_and_no_errors() {
    for text in [
        "0",
        " 1 ",
        "1+2",
        "1 - 2 * 3 / 4",
        "(1)",
        "((1 + 2) * (3 - 4)) / 5",
        "\t12\n*\r(34 + 56)",
        "2147483647 - 2147483647",
    ] {
        let input = String::from(text);
        let mut tokenizer = Tokenizer::new(&input);
        let (tokens, lexical) = tokenizer.tokenize();
        assert!(lexical.is_empty());
        let mut parser = Parser::new(&tokens);
        let (ast, syntactic) = parser.parse();
        assert!(ast.is_some());
        assert!(syntactic.is_empty());
    }
}

#[test]
fn unclosed_parenthesis_around_any_expression_is_one_unexpected_end() {
    for (text, count) in [("(1", 2usize), ("(1 * 2 + 3", 6), ("((1)", 4), ("(1 + (2)", 6)] {
        let tokens = tokens_of(text);
        assert_eq!(tokens.len(), count);
        let mut parser = Parser::new(&tokens);
        let (ast, errors) = parser.parse();
        assert_eq!(ast, None);
        assert_eq!(
            errors,
            vec![ErrorKind::UnexpectedEndOfExpression {
                index: count,
                expected: Some(Token::ClosingParenthesis),
            }]
        );
    }
}
