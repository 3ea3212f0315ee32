use vstd::prelude::*;
use vstd::string::StringExecFns;
use crate::ast::nodes::{Expression, Operator};
use crate::ast::tokens::Token;

verus! {

/// The character that stands for a digit value below ten.
pub open spec fn digit_char(d: int) -> char
    recommends
        0 <= d < 10,
{
    if d == 0 {
        '0'
    } else if d == 1 {
        '1'
    } else if d == 2 {
        '2'
    } else if d == 3 {
        '3'
    } else if d == 4 {
        '4'
    } else if d == 5 {
        '5'
    } else if d == 6 {
        '6'
    } else if d == 7 {
        '7'
    } else if d == 8 {
        '8'
    } else {
        '9'
    }
}

/// The decimal digits of a natural number, most significant first and
/// without leading zeros.
pub open spec fn decimal(n: nat) -> Seq<char>
    decreases n,
{
    if n < 10 {
        seq![digit_char(n as int)]
    } else {
        decimal(n / 10).push(digit_char((n % 10) as int))
    }
}

/// The decimal form of an integer: a minus sign before the digits of a
/// negative one.
pub open spec fn integer_text(v: int) -> Seq<char> {
    if v < 0 {
        seq!['-'] + decimal((-v) as nat)
    } else {
        decimal(v as nat)
    }
}

/// The symbol of an operator.
pub open spec fn operator_symbol(operator: Operator) -> char {
    match operator {
        Operator::Plus => '+',
        Operator::Minus => '-',
        Operator::Multiply => '*',
        Operator::Divide => '/',
    }
}

/// The canonical text of a token.
pub open spec fn token_text(token: Token) -> Seq<char> {
    match token {
        Token::Operator(operator) => seq![operator_symbol(operator)],
        Token::OpeningParenthesis => seq!['('],
        Token::ClosingParenthesis => seq![')'],
        Token::NumberLiteral(value) => integer_text(value as int),
    }
}

/// The canonical text of an expression: a binary node is its operands with
/// the operator between them and one space on each side of it, a
/// parenthesized node is its content between parentheses. No parentheses
/// are added: grouping shows only where the tree holds it.
pub open spec fn expression_text(expression: Expression) -> Seq<char>
    decreases expression,
{
    match expression {
        Expression::Literal(value) => integer_text(value as int),
        Expression::Binary { left, operator, right } => expression_text(*left) + seq![
            ' ',
            operator_symbol(operator),
            ' ',
        ] + expression_text(*right),
        Expression::Parenthesized(inner) => seq!['('] + expression_text(*inner) + seq![')'],
    }
}

/// A value with a canonical textual form that can be appended to a buffer.
pub trait Render {
    /// The text that `render` appends.
    spec fn text(&self) -> Seq<char>;

    /// Appends the value's text to `buf` and leaves what `buf` held before
    /// in place.
    fn render(&self, buf: &mut String)
        ensures
            final(buf)@ == old(buf)@ + self.text(),
    ;
}

/// The one-character string of a digit value.
fn digit_str(d: u64) -> (s: &'static str)
    requires
        d < 10,
    ensures
        s@ == seq![digit_char(d as int)],
{
    proof {
        reveal_strlit("0");
        reveal_strlit("1");
        reveal_strlit("2");
        reveal_strlit("3");
        reveal_strlit("4");
        reveal_strlit("5");
        reveal_strlit("6");
        reveal_strlit("7");
        reveal_strlit("8");
        reveal_strlit("9");
    }
    let s = if d == 0 {
        "0"
    } else if d == 1 {
        "1"
    } else if d == 2 {
        "2"
    } else if d == 3 {
        "3"
    } else if d == 4 {
        "4"
    } else if d == 5 {
        "5"
    } else if d == 6 {
        "6"
    } else if d == 7 {
        "7"
    } else if d == 8 {
        "8"
    } else {
        "9"
    };
    assert(s@ =~= seq![digit_char(d as int)]);
    s
}

/// Appends the decimal digits of `n` to `buf`.
pub fn push_decimal(buf: &mut String, n: u64)
    ensures
        final(buf)@ == old(buf)@ + decimal(n as nat),
    decreases n,
{
    if n >= 10 {
        push_decimal(buf, n / 10);
    }
    buf.append(digit_str(n % 10));
    proof {
        let d = seq![digit_char((n % 10) as int)];
        if n >= 10 {
            assert(old(buf)@ + decimal((n / 10) as nat) + d =~= old(buf)@ + decimal(
                (n / 10) as nat,
            ).push(digit_char((n % 10) as int)));
        }
    }
}

/// Appends the decimal form of `value` to `buf`.
pub fn push_integer(buf: &mut String, value: i64)
    ensures
        final(buf)@ == old(buf)@ + integer_text(value as int),
{
    if value < 0 {
        proof {
            reveal_strlit("-");
        }
        buf.append("-");
        let magnitude: u64 = (-(value as i128)) as u64;
        push_decimal(buf, magnitude);
        assert(old(buf)@ + "-"@ + decimal(magnitude as nat) =~= old(buf)@ + (seq!['-'] + decimal(
            magnitude as nat,
        )));
    } else {
        push_decimal(buf, value as u64);
    }
}

impl Render for Operator {
    open spec fn text(&self) -> Seq<char> {
        seq![operator_symbol(*self)]
    }

    fn render(&self, buf: &mut String) {
        proof {
            reveal_strlit("+");
            reveal_strlit("-");
            reveal_strlit("*");
            reveal_strlit("/");
        }
        let symbol = match self {
            Operator::Plus => "+",
            Operator::Minus => "-",
            Operator::Multiply => "*",
            Operator::Divide => "/",
        };
        assert(symbol@ =~= seq![operator_symbol(*self)]);
        buf.append(symbol);
    }
}

impl Render for Token {
    open spec fn text(&self) -> Seq<char> {
        token_text(*self)
    }

    fn render(&self, buf: &mut String) {
        match self {
            Token::Operator(operator) => operator.render(buf),
            Token::OpeningParenthesis => {
                proof {
                    reveal_strlit("(");
                }
                assert("("@ =~= seq!['(']);
                buf.append("(");
            },
            Token::ClosingParenthesis => {
                proof {
                    reveal_strlit(")");
                }
                assert(")"@ =~= seq![')']);
                buf.append(")");
            },
            Token::NumberLiteral(value) => push_integer(buf, *value as i64),
        }
    }
}

impl Render for Expression {
    open spec fn text(&self) -> Seq<char> {
        expression_text(*self)
    }

    fn render(&self, buf: &mut String)
        decreases *self,
    {
        match self {
            Expression::Literal(value) => {
                Token::NumberLiteral(*value).render(buf);
            },
            Expression::Binary { left, operator, right } => {
                left.render(buf);
                proof {
                    reveal_strlit(" ");
                }
                buf.append(" ");
                Token::Operator(*operator).render(buf);
                buf.append(" ");
                right.render(buf);
                assert(buf@ =~= old(buf)@ + expression_text(*self));
            },
            Expression::Parenthesized(inner) => {
                Token::OpeningParenthesis.render(buf);
                inner.render(buf);
                Token::ClosingParenthesis.render(buf);
                assert(buf@ =~= old(buf)@ + expression_text(*self));
            },
        }
    }
}

} // verus!
