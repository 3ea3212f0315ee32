use vstd::prelude::*;
use crate::ast::nodes::Expression;
use crate::ast::render::{decimal, digit_char, expression_text, operator_symbol};
use crate::ast::tokens::Token;
use crate::parse::error::ErrorModel;
use crate::parse::grammar::{parse_outcome, Outcome};
use crate::parse::shape::{expression_tokens, lemma_parse_characterized};
use crate::parse::tokenizer::{
    digits_end,
    digits_value,
    errors_of_text,
    is_digit,
    lemma_digits_end,
    lemma_digits_value_nonnegative,
    lemma_digits_value_push,
    scan,
    symbol_token,
    tokens_of_text,
};

verus! {

/// Whether no literal of the tree is negative.
pub open spec fn has_natural_literals(expression: Expression) -> bool
    decreases expression,
{
    match expression {
        Expression::Literal(value) => value >= 0,
        Expression::Binary { left, operator, right } => has_natural_literals(*left)
            && has_natural_literals(*right),
        Expression::Parenthesized(inner) => has_natural_literals(*inner),
    }
}

/// Whether no number among the tokens is negative.
pub open spec fn has_natural_numbers(tokens: Seq<Token>) -> bool {
    forall|i: int|
        0 <= i < tokens.len() ==> (#[trigger] tokens[i] matches Token::NumberLiteral(value)
            ==> value >= 0)
}

/// The decimal form of a natural number is a sequence of one or more
/// digits that denotes the number.
pub proof fn lemma_decimal_denotes(n: nat)
    ensures
        decimal(n).len() > 0,
        forall|i: int| 0 <= i < decimal(n).len() ==> is_digit(#[trigger] decimal(n)[i]),
        digits_value(decimal(n)) == n,
    decreases n,
{
    if n < 10 {
        lemma_digits_value_push(Seq::empty(), digit_char(n as int));
        assert(Seq::<char>::empty().push(digit_char(n as int)) =~= decimal(n));
    } else {
        lemma_decimal_denotes(n / 10);
        lemma_digits_value_push(decimal(n / 10), digit_char((n % 10) as int));
    }
}

/// A stretch of digits that no digit follows is the run of digits that
/// starts at its first position.
pub proof fn lemma_digits_end_of_run(text: Seq<char>, pos: int, end: int)
    requires
        0 <= pos <= end <= text.len(),
        forall|i: int| pos <= i < end ==> is_digit(#[trigger] text[i]),
        end < text.len() ==> !is_digit(text[end]),
    ensures
        digits_end(text, pos) == end,
    decreases end - pos,
{
    if pos < end {
        lemma_digits_end_of_run(text, pos + 1, end);
    }
}

/// Whether `part` stands in `text` from `pos` on.
pub open spec fn text_stands_at(text: Seq<char>, pos: int, part: Seq<char>) -> bool {
    &&& 0 <= pos
    &&& pos + part.len() <= text.len()
    &&& text.subrange(pos, pos + part.len()) == part
}

/// Whether the character at `pos`, if there is one, is no digit.
pub open spec fn no_digit_at(text: Seq<char>, pos: int) -> bool {
    0 <= pos < text.len() ==> !is_digit(text[pos])
}

/// Where the decimal form of a number that fits in an `i32` stands and no
/// digit follows it, scanning gives that number and goes on behind it.
pub proof fn lemma_scan_number(text: Seq<char>, pos: int, n: nat)
    requires
        n <= i32::MAX,
        text_stands_at(text, pos, decimal(n)),
        no_digit_at(text, pos + decimal(n).len()),
    ensures
        scan(text, pos).tokens == seq![Token::NumberLiteral(n as i32)] + scan(
            text,
            pos + decimal(n).len(),
        ).tokens,
        scan(text, pos).errors == scan(text, pos + decimal(n).len()).errors,
{
    let digits = decimal(n);
    let end = pos + digits.len();
    lemma_decimal_denotes(n);
    assert forall|i: int| pos <= i < end implies is_digit(#[trigger] text[i]) by {
        assert(text.subrange(pos, end)[i - pos] == digits[i - pos]);
    }
    lemma_digits_end_of_run(text, pos, end);
}

/// Where the text of a tree without negative literals stands and no digit
/// follows it, scanning gives the tokens of the tree, no diagnostic, and
/// goes on behind it.
pub proof fn lemma_scan_expression(text: Seq<char>, pos: int, expression: Expression)
    requires
        has_natural_literals(expression),
        text_stands_at(text, pos, expression_text(expression)),
        no_digit_at(text, pos + expression_text(expression).len()),
    ensures
        scan(text, pos).tokens == expression_tokens(expression) + scan(
            text,
            pos + expression_text(expression).len(),
        ).tokens,
        scan(text, pos).errors == scan(text, pos + expression_text(expression).len()).errors,
    decreases expression,
{
    let whole = expression_text(expression);
    let slice = text.subrange(pos, pos + whole.len());
    match expression {
        Expression::Literal(value) => {
            lemma_scan_number(text, pos, value as nat);
        },
        Expression::Binary { left, operator, right } => {
            let l = expression_text(*left);
            let r = expression_text(*right);
            let symbol = operator_symbol(operator);
            assert(whole =~= l + seq![' ', symbol, ' '] + r);
            let middle = pos + l.len();
            assert(text.subrange(pos, middle) =~= l) by {
                assert forall|i: int| 0 <= i < l.len() implies text[pos + i] == l[i] by {
                    assert(slice[i] == whole[i]);
                }
            }
            assert(text[middle] == ' ') by {
                assert(slice[l.len() as int] == whole[l.len() as int]);
            }
            assert(text[middle + 1] == symbol) by {
                assert(slice[l.len() as int + 1] == whole[l.len() as int + 1]);
            }
            assert(text[middle + 2] == ' ') by {
                assert(slice[l.len() as int + 2] == whole[l.len() as int + 2]);
            }
            assert(text.subrange(middle + 3, middle + 3 + r.len()) =~= r) by {
                assert forall|i: int| 0 <= i < r.len() implies text[middle + 3 + i] == r[i] by {
                    assert(slice[l.len() as int + 3 + i] == whole[l.len() as int + 3 + i]);
                }
            }
            lemma_scan_expression(text, pos, *left);
            lemma_scan_expression(text, middle + 3, *right);
            assert(symbol_token(symbol) == Some(Token::Operator(operator)));
            assert(scan(text, middle) == scan(text, middle + 1));
            assert(scan(text, middle + 2) == scan(text, middle + 3));
            assert(scan(text, middle + 1).tokens == seq![Token::Operator(operator)] + scan(
                text,
                middle + 2,
            ).tokens);
            assert(scan(text, pos).tokens =~= expression_tokens(expression) + scan(
                text,
                pos + whole.len(),
            ).tokens);
        },
        Expression::Parenthesized(inner) => {
            let content = expression_text(*inner);
            assert(whole =~= seq!['('] + content + seq![')']);
            let close = pos + 1 + content.len();
            assert(text[pos] == '(') by {
                assert(slice[0] == whole[0]);
            }
            assert(text[close] == ')') by {
                assert(slice[content.len() as int + 1] == whole[content.len() as int + 1]);
            }
            assert(text.subrange(pos + 1, close) =~= content) by {
                assert forall|i: int| 0 <= i < content.len() implies text[pos + 1 + i]
                    == content[i] by {
                    assert(slice[1 + i] == whole[1 + i]);
                }
            }
            lemma_scan_expression(text, pos + 1, *inner);
            assert(scan(text, pos).tokens == seq![Token::OpeningParenthesis] + scan(
                text,
                pos + 1,
            ).tokens);
            assert(scan(text, close).tokens == seq![Token::ClosingParenthesis] + scan(
                text,
                close + 1,
            ).tokens);
            assert(scan(text, pos).tokens =~= expression_tokens(expression) + scan(
                text,
                pos + whole.len(),
            ).tokens);
        },
    }
}

/// The text of a tree without negative literals is scanned to the tokens
/// of the tree, without a diagnostic.
pub proof fn lemma_text_scans_back(expression: Expression)
    requires
        has_natural_literals(expression),
    ensures
        tokens_of_text(expression_text(expression)) == expression_tokens(expression),
        errors_of_text(expression_text(expression)) == Seq::<ErrorModel>::empty(),
{
    let text = expression_text(expression);
    assert(text.subrange(0, text.len() as int) =~= text);
    lemma_scan_expression(text, 0, expression);
    assert(expression_tokens(expression) + scan(text, text.len() as int).tokens
        =~= expression_tokens(expression));
}

/// Scanning gives no negative number.
pub proof fn lemma_scan_natural(text: Seq<char>, pos: int)
    ensures
        has_natural_numbers(scan(text, pos).tokens),
    decreases text.len() - pos,
{
    if 0 <= pos < text.len() {
        if is_digit(text[pos]) {
            lemma_digits_end(text, pos);
            let end = digits_end(text, pos);
            lemma_scan_natural(text, end);
            let digits = text.subrange(pos, end);
            lemma_digits_value_nonnegative(digits);
            let rest = scan(text, end).tokens;
            assert forall|i: int| 0 <= i < scan(text, pos).tokens.len() implies (#[trigger] scan(
                text,
                pos,
            ).tokens[i] matches Token::NumberLiteral(value) ==> value >= 0) by {
                if digits_value(digits) <= i32::MAX && i > 0 {
                    assert(scan(text, pos).tokens[i] == rest[i - 1]);
                }
            }
        } else {
            lemma_scan_natural(text, pos + 1);
            let rest = scan(text, pos + 1).tokens;
            assert forall|i: int| 0 <= i < scan(text, pos).tokens.len() implies (#[trigger] scan(
                text,
                pos,
            ).tokens[i] matches Token::NumberLiteral(value) ==> value >= 0) by {
                if symbol_token(text[pos]) is Some && i > 0 {
                    assert(scan(text, pos).tokens[i] == rest[i - 1]);
                }
            }
        }
    }
}

/// A tree whose tokens hold no negative number has no negative literal.
pub proof fn lemma_natural_tokens(expression: Expression)
    requires
        has_natural_numbers(expression_tokens(expression)),
    ensures
        has_natural_literals(expression),
    decreases expression,
{
    let whole = expression_tokens(expression);
    match expression {
        Expression::Literal(value) => {
            assert(whole[0] == Token::NumberLiteral(value));
        },
        Expression::Binary { left, operator, right } => {
            let l = expression_tokens(*left);
            let r = expression_tokens(*right);
            assert forall|i: int| 0 <= i < l.len() implies (#[trigger] l[i] matches Token::NumberLiteral(
                value,
            ) ==> value >= 0) by {
                assert(whole[i] == l[i]);
            }
            assert forall|i: int| 0 <= i < r.len() implies (#[trigger] r[i] matches Token::NumberLiteral(
                value,
            ) ==> value >= 0) by {
                assert(whole[l.len() + 1 + i] == r[i]);
            }
            lemma_natural_tokens(*left);
            lemma_natural_tokens(*right);
        },
        Expression::Parenthesized(inner) => {
            let content = expression_tokens(*inner);
            assert forall|i: int| 0 <= i < content.len() implies (
            #[trigger] content[i] matches Token::NumberLiteral(value) ==> value >= 0) by {
                assert(whole[1 + i] == content[i]);
            }
            lemma_natural_tokens(*inner);
        },
    }
}

/// The text of a tree that was parsed from the tokens of some text is
/// scanned to those same tokens without a diagnostic, and these are parsed
/// to that same tree without a diagnostic: rendering, scanning and parsing
/// again changes nothing.
pub proof fn lemma_round_trip(text: Seq<char>, expression: Expression)
    requires
        parse_outcome(tokens_of_text(text)).ast == Some(expression),
    ensures
        tokens_of_text(expression_text(expression)) == tokens_of_text(text),
        errors_of_text(expression_text(expression)) == Seq::<ErrorModel>::empty(),
        parse_outcome(tokens_of_text(expression_text(expression))) == (Outcome {
            ast: Some(expression),
            errors: Seq::empty(),
        }),
{
    lemma_parse_characterized(tokens_of_text(text), expression);
    lemma_scan_natural(text, 0);
    lemma_natural_tokens(expression);
    lemma_text_scans_back(expression);
}

} // verus!
