use vstd::prelude::*;
use vstd::string::StrSliceExecFns;
use crate::ast::nodes::Operator;
use crate::ast::tokens::Token;
use crate::parse::error::{error_models, lemma_error_models_push, ErrorKind, ErrorModel};

verus! {

/// Whether `c` is one of the ten ASCII digits.
pub open spec fn is_digit(c: char) -> bool {
    '0' <= c && c <= '9'
}

/// Whether `c` has the Unicode property White_Space.
pub open spec fn is_whitespace(c: char) -> bool {
    ||| '\u{9}' <= c && c <= '\u{d}'
    ||| c == ' '
    ||| c == '\u{85}'
    ||| c == '\u{a0}'
    ||| c == '\u{1680}'
    ||| '\u{2000}' <= c && c <= '\u{200a}'
    ||| c == '\u{2028}'
    ||| c == '\u{2029}'
    ||| c == '\u{202f}'
    ||| c == '\u{205f}'
    ||| c == '\u{3000}'
}

/// The token that a single character stands for, if it stands for one.
pub open spec fn symbol_token(c: char) -> Option<Token> {
    if c == '+' {
        Some(Token::Operator(Operator::Plus))
    } else if c == '-' {
        Some(Token::Operator(Operator::Minus))
    } else if c == '*' {
        Some(Token::Operator(Operator::Multiply))
    } else if c == '/' {
        Some(Token::Operator(Operator::Divide))
    } else if c == '(' {
        Some(Token::OpeningParenthesis)
    } else if c == ')' {
        Some(Token::ClosingParenthesis)
    } else {
        None
    }
}

/// The value of a digit.
pub open spec fn digit_value(c: char) -> int
    recommends
        is_digit(c),
{
    c as int - '0' as int
}

/// The number that a sequence of digits denotes in base ten.
pub open spec fn digits_value(digits: Seq<char>) -> int
    decreases digits.len(),
{
    if digits.len() == 0 {
        0
    } else {
        10 * digits_value(digits.drop_last()) + digit_value(digits.last())
    }
}

/// The position after the longest run of digits that starts at `pos`.
pub open spec fn digits_end(text: Seq<char>, pos: int) -> int
    decreases text.len() - pos,
{
    if 0 <= pos < text.len() && is_digit(text[pos]) {
        digits_end(text, pos + 1)
    } else {
        pos
    }
}

/// A run of digits ends at or after its start and within the text, holds
/// digits only, and is followed by none.
pub proof fn lemma_digits_end(text: Seq<char>, pos: int)
    requires
        0 <= pos <= text.len(),
    ensures
        pos <= digits_end(text, pos) <= text.len(),
        pos < text.len() && is_digit(text[pos]) ==> pos < digits_end(text, pos),
        forall|i: int| pos <= i < digits_end(text, pos) ==> is_digit(#[trigger] text[i]),
        digits_end(text, pos) < text.len() ==> !is_digit(text[digits_end(text, pos)]),
    decreases text.len() - pos,
{
    if pos < text.len() && is_digit(text[pos]) {
        lemma_digits_end(text, pos + 1);
    }
}

/// What scanning yields: the tokens and the diagnostics, each in the order
/// of the text.
pub struct Scanned {
    pub tokens: Seq<Token>,
    pub errors: Seq<ErrorModel>,
}

/// What scanning `text` from `pos` to its end yields.
///
/// A character that stands for a token gives that token. A digit starts the
/// longest run of digits; the run gives a number where its value fits in an
/// `i32` and a diagnostic where it does not, and scanning goes on after it.
/// Whitespace gives nothing. Any other character gives a diagnostic of its
/// own, and scanning goes on with the next one.
pub open spec fn scan(text: Seq<char>, pos: int) -> Scanned
    decreases text.len() - pos,
{
    if pos < 0 || pos >= text.len() {
        Scanned { tokens: Seq::empty(), errors: Seq::empty() }
    } else if is_digit(text[pos]) {
        let end = digits_end(text, pos);
        proof {
            lemma_digits_end(text, pos);
        }
        let rest = scan(text, end);
        let digits = text.subrange(pos, end);
        if digits_value(digits) <= i32::MAX {
            Scanned {
                tokens: seq![Token::NumberLiteral(digits_value(digits) as i32)] + rest.tokens,
                errors: rest.errors,
            }
        } else {
            Scanned {
                tokens: rest.tokens,
                errors: seq![ErrorModel::InvalidNumber { contents: digits, start: pos, end: end - 1 }]
                    + rest.errors,
            }
        }
    } else {
        let rest = scan(text, pos + 1);
        match symbol_token(text[pos]) {
            Some(token) => Scanned { tokens: seq![token] + rest.tokens, errors: rest.errors },
            None => if is_whitespace(text[pos]) {
                rest
            } else {
                Scanned {
                    tokens: rest.tokens,
                    errors: seq![
                        ErrorModel::InvalidSymbol { contents: seq![text[pos]], pos: pos },
                    ] + rest.errors,
                }
            },
        }
    }
}

/// The tokens of `text`.
pub open spec fn tokens_of_text(text: Seq<char>) -> Seq<Token> {
    scan(text, 0).tokens
}

/// The lexical diagnostics of `text`.
pub open spec fn errors_of_text(text: Seq<char>) -> Seq<ErrorModel> {
    scan(text, 0).errors
}

/// Appending a digit to a sequence of digits multiplies its value by ten and
/// adds the digit.
pub proof fn lemma_digits_value_push(digits: Seq<char>, c: char)
    ensures
        digits_value(digits.push(c)) == 10 * digits_value(digits) + digit_value(c),
{
    assert(digits.push(c).drop_last() =~= digits);
}

/// The value of a sequence of digits is not negative.
pub proof fn lemma_digits_value_nonnegative(digits: Seq<char>)
    requires
        forall|i: int| 0 <= i < digits.len() ==> is_digit(#[trigger] digits[i]),
    ensures
        0 <= digits_value(digits),
    decreases digits.len(),
{
    if digits.len() > 0 {
        lemma_digits_value_nonnegative(digits.drop_last());
    }
}

/// Whether `c` is one of the ten ASCII digits.
pub fn is_ascii_digit(c: char) -> (r: bool)
    ensures
        r == is_digit(c),
{
    '0' <= c && c <= '9'
}

/// Whether `c` is whitespace.
pub fn is_whitespace_char(c: char) -> (r: bool)
    ensures
        r == is_whitespace(c),
{
    ('\u{9}' <= c && c <= '\u{d}') || c == ' ' || c == '\u{85}' || c == '\u{a0}' || c
        == '\u{1680}' || ('\u{2000}' <= c && c <= '\u{200a}') || c == '\u{2028}' || c
        == '\u{2029}' || c == '\u{202f}' || c == '\u{205f}' || c == '\u{3000}'
}

/// A scanner over one input text. It can be run any number of times: each
/// run starts from the beginning of the text with empty lists.
pub struct Tokenizer<'a> {
    input: &'a String,
    tokens: Vec<Token>,
    errors: Vec<ErrorKind<'a>>,
    pos: usize,
}

impl<'a> Tokenizer<'a> {
    /// The text that the tokenizer scans.
    pub closed spec fn text(&self) -> Seq<char> {
        self.input@
    }

    /// A tokenizer for `input`, with its cursor at the start.
    pub fn new(input: &'a String) -> (r: Tokenizer<'a>)
        ensures
            r.text() == input@,
    {
        Tokenizer { input, tokens: Vec::new(), errors: Vec::new(), pos: 0 }
    }

    /// The character under the cursor, if the cursor is within the text.
    fn current(&self) -> (r: Option<char>)
        ensures
            self.input@.len() <= usize::MAX,
            r == if self.pos < self.input@.len() {
                Some(self.input@[self.pos as int])
            } else {
                None
            },
    {
        let text = self.input.as_str();
        if self.pos < text.unicode_len() {
            Some(text.get_char(self.pos))
        } else {
            None
        }
    }

    /// Moves the cursor one character on and gives the character under it.
    fn next(&mut self) -> (r: Option<char>)
        requires
            old(self).pos < old(self).input@.len() <= usize::MAX,
        ensures
            final(self).pos == old(self).pos + 1,
            final(self).input == old(self).input,
            final(self).tokens == old(self).tokens,
            final(self).errors == old(self).errors,
            r == if final(self).pos < final(self).input@.len() {
                Some(final(self).input@[final(self).pos as int])
            } else {
                None
            },
    {
        self.pos += 1;
        self.current()
    }

    /// Scans the run of digits that starts under the cursor, and leaves the
    /// cursor on its last digit.
    fn number_literal(&mut self)
        requires
            old(self).pos < old(self).input@.len() <= usize::MAX,
            is_digit(old(self).input@[old(self).pos as int]),
        ensures
            final(self).input == old(self).input,
            final(self).pos == digits_end(old(self).input@, old(self).pos as int) - 1,
            ({
                let text = old(self).input@;
                let start = old(self).pos as int;
                let end = digits_end(text, start);
                let digits = text.subrange(start, end);
                if digits_value(digits) <= i32::MAX {
                    &&& final(self).tokens@ == old(self).tokens@.push(
                        Token::NumberLiteral(digits_value(digits) as i32),
                    )
                    &&& final(self).errors == old(self).errors
                } else {
                    &&& final(self).tokens == old(self).tokens
                    &&& error_models(final(self).errors@) == error_models(old(self).errors@).push(
                        ErrorModel::InvalidNumber { contents: digits, start: start, end: end - 1 },
                    )
                }
            }),
    {
        let start = self.pos;
        let mut value: u64 = 0;
        let mut fits = true;
        let mut current = self.current();
        let ghost text = self.input@;
        proof {
            lemma_digits_end(text, start as int);
            assert(text.subrange(start as int, start as int) =~= Seq::<char>::empty());
        }
        while current.is_some() && is_ascii_digit(current.unwrap())
            invariant
                self.input == old(self).input,
                self.tokens == old(self).tokens,
                self.errors == old(self).errors,
                text == self.input@,
                start <= self.pos <= text.len() <= usize::MAX,
                start == old(self).pos,
                current == if self.pos < text.len() {
                    Some(text[self.pos as int])
                } else {
                    None
                },
                digits_end(text, self.pos as int) == digits_end(text, start as int),
                forall|i: int| start <= i < self.pos ==> is_digit(#[trigger] text[i]),
                fits ==> value == digits_value(text.subrange(start as int, self.pos as int)),
                fits ==> value <= i32::MAX,
                !fits ==> digits_value(text.subrange(start as int, self.pos as int)) > i32::MAX,
            decreases text.len() - self.pos,
        {
            let c = current.unwrap();
            let digit: u64 = (c as u64) - ('0' as u64);
            proof {
                let before = text.subrange(start as int, self.pos as int);
                assert(text.subrange(start as int, self.pos as int + 1) =~= before.push(c));
                lemma_digits_value_push(before, c);
                lemma_digits_value_nonnegative(before);
            }
            if fits {
                let extended: u64 = value * 10 + digit;
                if extended > 2147483647 {
                    fits = false;
                } else {
                    value = extended;
                }
            }
            current = self.next();
        }
        let end = self.pos - 1;
        self.pos = end;
        assert(self.pos + 1 == digits_end(text, start as int));
        if fits {
            self.tokens.push(Token::NumberLiteral(value as i32));
        } else {
            let input: &'a String = self.input;
            let contents = input.as_str().substring_char(start, end + 1);
            let error = ErrorKind::InvalidNumber { contents, start, end };
            proof {
                lemma_error_models_push(self.errors@, error);
            }
            self.errors.push(error);
        }
    }

    /// Puts the cursor at the start and empties both lists.
    fn reset(&mut self)
        ensures
            final(self).input == old(self).input,
            final(self).pos == 0,
            final(self).tokens@.len() == 0,
            final(self).errors@.len() == 0,
    {
        self.pos = 0;
        self.tokens.clear();
        self.errors.clear();
    }

    /// Scans the whole text and gives its tokens and its diagnostics, each
    /// in the order of the text. A character or a number that gives a
    /// diagnostic gives no token, and scanning goes on behind it.
    pub fn tokenize(&mut self) -> (r: (Vec<Token>, Vec<ErrorKind<'a>>))
        ensures
            final(self).text() == old(self).text(),
            r.0@ == tokens_of_text(old(self).text()),
            error_models(r.1@) == errors_of_text(old(self).text()),
    {
        self.reset();
        let ghost text = self.input@;
        let mut current = self.current();
        proof {
            assert(error_models(self.errors@) =~= Seq::<ErrorModel>::empty());
            assert(self.tokens@ + scan(text, 0).tokens =~= scan(text, 0).tokens);
            assert(error_models(self.errors@) + scan(text, 0).errors =~= scan(text, 0).errors);
        }
        while current.is_some()
            invariant
                self.input == old(self).input,
                text == self.input@,
                self.pos <= text.len() <= usize::MAX,
                current == if self.pos < text.len() {
                    Some(text[self.pos as int])
                } else {
                    None
                },
                self.tokens@ + scan(text, self.pos as int).tokens == scan(text, 0).tokens,
                error_models(self.errors@) + scan(text, self.pos as int).errors == scan(
                    text,
                    0,
                ).errors,
            decreases text.len() - self.pos,
        {
            let c = current.unwrap();
            let ghost before = *self;
            let ghost here = scan(text, self.pos as int);
            let ghost start = self.pos as int;
            if c == '+' {
                self.tokens.push(Token::Operator(Operator::Plus));
            } else if c == '-' {
                self.tokens.push(Token::Operator(Operator::Minus));
            } else if c == '*' {
                self.tokens.push(Token::Operator(Operator::Multiply));
            } else if c == '/' {
                self.tokens.push(Token::Operator(Operator::Divide));
            } else if c == '(' {
                self.tokens.push(Token::OpeningParenthesis);
            } else if c == ')' {
                self.tokens.push(Token::ClosingParenthesis);
            } else if is_ascii_digit(c) {
                self.number_literal();
            } else if is_whitespace_char(c) {
            } else {
                let input: &'a String = self.input;
                let contents = input.as_str().substring_char(self.pos, self.pos + 1);
                let error = ErrorKind::InvalidSymbol { contents, pos: self.pos };
                proof {
                    lemma_error_models_push(self.errors@, error);
                    assert(contents@ =~= seq![c]);
                }
                self.errors.push(error);
            }
            proof {
                lemma_digits_end(text, start);
            }
            current = self.next();
            proof {
                let rest = scan(text, self.pos as int);
                assert(self.tokens@ + rest.tokens =~= before.tokens@ + here.tokens);
                assert(error_models(self.errors@) + rest.errors =~= error_models(before.errors@)
                    + here.errors);
            }
        }
        (self.tokens.clone(), self.errors.clone())
    }
}

} // verus!
