use vstd::prelude::*;
use crate::ast::nodes::Expression;
use crate::parse::error::ErrorModel;
use crate::parse::grammar::{parse_outcome, Outcome};
use crate::parse::shape::{expression_tokens, is_expression, lemma_parse_characterized};
use crate::parse::tokenizer::{
    digits_end,
    digits_value,
    errors_of_text,
    is_digit,
    is_whitespace,
    lemma_digits_end,
    scan,
    symbol_token,
    tokens_of_text,
};

verus! {

/// Whether `c` may stand in an expression: a digit, one of the four
/// operators, a parenthesis, or whitespace.
pub open spec fn is_known_char(c: char) -> bool {
    is_digit(c) || symbol_token(c) is Some || is_whitespace(c)
}

/// Whether a run of digits starts at `i`, for a scan that starts at `pos`:
/// there is a digit at `i`, and `i` is `pos` or no digit stands before it.
pub open spec fn starts_run(text: Seq<char>, pos: int, i: int) -> bool {
    is_digit(text[i]) && (i == pos || !is_digit(text[i - 1]))
}

/// Whether the text from `pos` on holds only characters that may stand in
/// an expression, and only runs of digits whose value fits in an `i32`.
pub open spec fn is_valid_from(text: Seq<char>, pos: int) -> bool {
    forall|i: int|
        pos <= i < text.len() ==> is_known_char(#[trigger] text[i]) && (starts_run(text, pos, i)
            ==> digits_value(text.subrange(i, digits_end(text, i))) <= i32::MAX)
}

/// Whether the text holds only characters that may stand in an expression,
/// and only numbers that fit in an `i32`.
pub open spec fn is_valid_text(text: Seq<char>) -> bool {
    is_valid_from(text, 0)
}

/// Scanning from `pos` gives no diagnostic exactly where the text from
/// `pos` on is valid.
pub proof fn lemma_scan_clean(text: Seq<char>, pos: int)
    requires
        0 <= pos <= text.len(),
    ensures
        scan(text, pos).errors.len() == 0 <==> is_valid_from(text, pos),
    decreases text.len() - pos,
{
    if pos < text.len() {
        if is_digit(text[pos]) {
            let end = digits_end(text, pos);
            lemma_digits_end(text, pos);
            lemma_scan_clean(text, end);
            let fits = digits_value(text.subrange(pos, end)) <= i32::MAX;
            if is_valid_from(text, pos) {
                assert(is_known_char(text[pos]) && starts_run(text, pos, pos));
                assert forall|i: int| end <= i < text.len() implies is_known_char(
                    #[trigger] text[i],
                ) && (starts_run(text, end, i) ==> digits_value(
                    text.subrange(i, digits_end(text, i)),
                ) <= i32::MAX) by {
                    assert(starts_run(text, end, i) ==> starts_run(text, pos, i));
                }
            }
            if fits && is_valid_from(text, end) {
                assert forall|i: int| pos <= i < text.len() implies is_known_char(
                    #[trigger] text[i],
                ) && (starts_run(text, pos, i) ==> digits_value(
                    text.subrange(i, digits_end(text, i)),
                ) <= i32::MAX) by {
                    if i < end {
                        if i > pos {
                            assert(is_digit(text[i - 1]));
                        }
                    } else {
                        assert(is_digit(text[end - 1]));
                        assert(starts_run(text, pos, i) ==> starts_run(text, end, i));
                    }
                }
            }
        } else {
            lemma_scan_clean(text, pos + 1);
            if is_valid_from(text, pos) {
                assert(is_known_char(text[pos]));
                assert forall|i: int| pos + 1 <= i < text.len() implies is_known_char(
                    #[trigger] text[i],
                ) && (starts_run(text, pos + 1, i) ==> digits_value(
                    text.subrange(i, digits_end(text, i)),
                ) <= i32::MAX) by {
                    assert(starts_run(text, pos + 1, i) ==> starts_run(text, pos, i));
                }
            }
            if is_known_char(text[pos]) && is_valid_from(text, pos + 1) {
                assert forall|i: int| pos <= i < text.len() implies is_known_char(
                    #[trigger] text[i],
                ) && (starts_run(text, pos, i) ==> digits_value(
                    text.subrange(i, digits_end(text, i)),
                ) <= i32::MAX) by {
                    if i > pos {
                        assert(starts_run(text, pos, i) ==> starts_run(text, pos + 1, i));
                    }
                }
            }
        }
    }
}

/// A character that may not stand in an expression gives a diagnostic of
/// its own, whatever stands before it and behind it.
pub proof fn lemma_unknown_char_reported(text: Seq<char>, pos: int, i: int)
    requires
        0 <= pos <= i < text.len(),
        !is_known_char(text[i]),
    ensures
        scan(text, pos).errors.contains(
            ErrorModel::InvalidSymbol { contents: seq![text[i]], pos: i },
        ),
    decreases text.len() - pos,
{
    let error = ErrorModel::InvalidSymbol { contents: seq![text[i]], pos: i };
    let errors = scan(text, pos).errors;
    if pos == i {
        assert(errors[0] == error);
    } else {
        let next = if is_digit(text[pos]) {
            digits_end(text, pos)
        } else {
            pos + 1
        };
        lemma_digits_end(text, pos);
        lemma_unknown_char_reported(text, next, i);
        let rest = scan(text, next).errors;
        let j = choose|j: int| 0 <= j < rest.len() && rest[j] == error;
        if errors.len() == rest.len() {
            assert(errors[j] == error);
        } else {
            assert(errors[j + 1] == error);
        }
    }
}

/// Scanning and then parsing a text gives the tree `expression` and no
/// diagnostic at either stage exactly where the text is valid, `expression`
/// has the shape that the grammar gives an expression, and the tokens of
/// the text are those that `expression` stands for.
pub proof fn lemma_clean_run(text: Seq<char>, expression: Expression)
    ensures
        (errors_of_text(text) == Seq::<ErrorModel>::empty() && parse_outcome(tokens_of_text(text))
            == Outcome { ast: Some(expression), errors: Seq::empty() }) <==> (is_valid_text(text)
            && is_expression(expression) && tokens_of_text(text) == expression_tokens(expression)),
{
    lemma_scan_clean(text, 0);
    lemma_parse_characterized(tokens_of_text(text), expression);
    assert(errors_of_text(text).len() == 0 <==> errors_of_text(text) =~= Seq::<ErrorModel>::empty());
    let outcome = parse_outcome(tokens_of_text(text));
    assert(outcome.ast is Some ==> outcome.errors =~= Seq::<ErrorModel>::empty());
}

} // verus!
