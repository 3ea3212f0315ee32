use arith_expr::ast::nodes::{Expression, Operator};
use arith_expr::ast::render::{push_decimal, push_integer, Render};
use arith_expr::ast::tokens::Token;
use arith_expr::parse::error::ErrorKind;
use arith_expr::parse::parser::Parser;
use arith_expr::parse::tokenizer::Tokenizer;

fn rendered<T: Render>(value: &T) -> String {
    let mut buf = String::new();
    value.render(&mut buf);
    buf
}

fn parse_text(text: &str) -> Option<Expression> {
    let input = String::from(text);
    let mut tokenizer = Tokenizer::new(&input);
    let (tokens, errors) = tokenizer.tokenize();
    assert!(errors.is_empty());
    let mut parser = Parser::new(&tokens);
    let (ast, _) = parser.parse();
    ast
}

#[test]
fn tokens_render_as_their_symbols() {
    assert_eq!(rendered(&Token::Operator(Operator::Plus)), "+");
    assert_eq!(rendered(&Token::Operator(Operator::Minus)), "-");
    assert_eq!(rendered(&Token::Operator(Operator::Multiply)), "*");
    assert_eq!(rendered(&Token::Operator(Operator::Divide)), "/");
    assert_eq!(rendered(&Token::OpeningParenthesis), "(");
    assert_eq!(rendered(&Token::ClosingParenthesis), ")");
    assert_eq!(rendered(&Token::NumberLiteral(0)), "0");
    assert_eq!(rendered(&Token::NumberLiteral(1234567890)), "1234567890");
    assert_eq!(rendered(&Token::NumberLiteral(-17)), "-17");
    assert_eq!(rendered(&Token::NumberLiteral(i32::MIN)), "-2147483648");
    assert_eq!(rendered(&Token::NumberLiteral(i32::MAX)), "2147483647");
}

#[test]
fn operators_render_as_their_symbols() {
    assert_eq!(rendered(&Operator::Plus), "+");
    assert_eq!(rendered(&Operator::Minus), "-");
    assert_eq!(rendered(&Operator::Multiply), "*");
    assert_eq!(rendered(&Operator::Divide), "/");
}

#[test]
fn render_appends_and_keeps_what_was_there() {
    let mut buf = String::from("x = ");
    Token::NumberLiteral(12).render(&mut buf);
    Token::Operator(Operator::Plus).render(&mut buf);
    Token::NumberLiteral(3).render(&mut buf);
    assert_eq!(buf, "x = 12+3");
}

#[test]
fn decimal_digits_are_those_of_the_standard_library() {
    for n in [0u64, 1, 9, 10, 11, 99, 100, 101, 12345, 4294967295, 4294967296, u64::MAX] {
        let mut buf = String::new();
        push_decimal(&mut buf, n);
        assert_eq!(buf, n.to_string());
    }
    for v in [0i64, 1, -1, 10, -10, 2147483647, -2147483648, i64::MAX, i64::MIN] {
        let mut buf = String::new();
        push_integer(&mut buf, v);
        assert_eq!(buf, v.to_string());
    }
}

#[test]
fn binary_renders_with_one_space_around_the_operator() {
    let expression = Expression::Binary {
        left: Box::new(Expression::Literal(2)),
        operator: Operator::Plus,
        right: Box::new(Expression::Binary {
            left: Box::new(Expression::Literal(3)),
            operator: Operator::Multiply,
            right: Box::new(Expression::Literal(4)),
        }),
    };
    assert_eq!(rendered(&expression), "2 + 3 * 4");
}

#[test]
fn render_adds_no_parentheses() {
    let expression = Expression::Binary {
        left: Box::new(Expression::Binary {
            left: Box::new(Expression::Literal(2)),
            operator: Operator::Plus,
            right: Box::new(Expression::Literal(3)),
        }),
        operator: Operator::Multiply,
        right: Box::new(Expression::Literal(4)),
    };
    assert_eq!(rendered(&expression), "2 + 3 * 4");
}

#[test]
fn parenthesized_renders_between_parentheses() {
    let expression = Expression::Parenthesized(Box::new(Expression::Parenthesized(Box::new(
        Expression::Binary {
            left: Box::new(Expression::Literal(10)),
            operator: Operator::Divide,
            right: Box::new(Expression::Literal(-2)),
        },
    ))));
    assert_eq!(rendered(&expression), "((10 / -2))");
}

#[test]
fn parsed_text_renders_in_canonical_form() {
    assert_eq!(rendered(&parse_text("  (2+3)*4 ").unwrap()), "(2 + 3) * 4");
    assert_eq!(rendered(&parse_text("10-2-3").unwrap()), "10 - 2 - 3");
    assert_eq!(rendered(&parse_text("007").unwrap()), "7");
    assert_eq!(rendered(&parse_text("((1))/( 2 )").unwrap()), "((1)) / (2)");
}

#[test]
fn rendered_text_parses_back_to_the_same_tree() {
    for text in [
        "1",
        "2 + 3 * 4",
        "10 - 2 - 3",
        "(2 + 3) * 4",
        "1+2*3-4/5+(6-(7*8))/9",
        "((((5))))",
        "2147483647 * (0 - 2147483647)",
        "8 / 4 / 2 * 3 - 1 - 1",
    ] {
        let first = parse_text(text).unwrap();
        let text_again = rendered(&first);
        let second = parse_text(&text_again).unwrap();
        assert_eq!(first, second);
        assert_eq!(rendered(&second), text_again);
    }
}

#[test]
fn rendered_text_scans_to_the_same_tokens() {
    let input = String::from("( 1+22 )*333");
    let mut tokenizer = Tokenizer::new(&input);
    let (tokens, _) = tokenizer.tokenize();
    let mut parser = Parser::new(&tokens);
    let (ast, _) = parser.parse();
    let text_again = rendered(&ast.unwrap());
    assert_eq!(text_again, "(1 + 22) * 333");
    let mut tokenizer = Tokenizer::new(&text_again);
    let (tokens_again, errors) = tokenizer.tokenize();
    assert_eq!(tokens_again, tokens);
    assert!(errors.is_empty());
}

#[test]
fn invalid_symbol_message() {
    let error = ErrorKind::InvalidSymbol { contents: "&", pos: 2 };
    assert_eq!(rendered(&error), "Tokenizing Error: Invalid symbol '&' at position '2'\n");
}

#[test]
fn invalid_number_message() {
    let error = ErrorKind::InvalidNumber { contents: "99999999999", start: 4, end: 14 };
    assert_eq!(
        rendered(&error),
        "Tokenizing Error: Invalid number '99999999999'\nat positions 4-14'\n"
    );
}

#[test]
fn unexpected_token_message() {
    let error = ErrorKind::UnexpectedToken {
        got: Token::ClosingParenthesis,
        expected: None,
        index: 3,
    };
    assert_eq!(
        rendered(&error),
        "Error: Unexpected token 'ClosingParenthesis' at index '3'. Expected 'None'\n"
    );
    let error = ErrorKind::UnexpectedToken {
        got: Token::NumberLiteral(-2),
        expected: Some(Token::ClosingParenthesis),
        index: 12,
    };
    assert_eq!(
        rendered(&error),
        "Error: Unexpected token 'NumberLiteral(-2)' at index '12'. Expected 'Some(ClosingParenthesis)'\n"
    );
}

#[test]
fn unexpected_end_message() {
    let error = ErrorKind::UnexpectedEndOfExpression {
        index: 10,
        expected: Some(Token::NumberLiteral(0)),
    };
    assert_eq!(
        rendered(&error),
        "Parsing Error: Unexpected end of expression at index 10\nExpected 'Some(NumberLiteral(0))'\n"
    );
}

#[test]
fn tokens_in_messages_read_as_their_debug_form() {
    let tokens = [
        Token::Operator(Operator::Plus),
        Token::Operator(Operator::Minus),
        Token::Operator(Operator::Multiply),
        Token::Operator(Operator::Divide),
        Token::OpeningParenthesis,
        Token::ClosingParenthesis,
        Token::NumberLiteral(0),
        Token::NumberLiteral(-7),
        Token::NumberLiteral(i32::MAX),
    ];
    for got in tokens {
        for expected in [None, Some(got), Some(Token::ClosingParenthesis)] {
            let error = ErrorKind::UnexpectedToken { got, expected, index: 5 };
            assert_eq!(
                rendered(&error),
                format!(
                    "Error: Unexpected token '{:?}' at index '{}'. Expected '{:?}'\n",
                    got, 5, expected
                )
            );
            let error = ErrorKind::UnexpectedEndOfExpression { index: 6, expected };
            assert_eq!(
                rendered(&error),
                format!(
                    "Parsing Error: Unexpected end of expression at index {}\nExpected '{:?}'\n",
                    6, expected
                )
            );
        }
    }
}

#[test]
fn messages_concatenate_into_a_report() {
    let mut buf = String::new();
    ErrorKind::InvalidSymbol { contents: "?", pos: 0 }.render(&mut buf);
    ErrorKind::InvalidSymbol { contents: "\u{e9}", pos: 7 }.render(&mut buf);
    assert_eq!(
        buf,
        "Tokenizing Error: Invalid symbol '?' at position '0'\nTokenizing Error: Invalid symbol '\u{e9}' at position '7'\n"
    );
}
