use vstd::prelude::*;
use vstd::string::StringExecFns;
use crate::ast::render::{expression_text, integer_text, push_integer, Render};
use crate::eval::EvalError;
use crate::parse::error::{error_models, error_text, ErrorKind, ErrorModel};
use crate::parse::grammar::parse_outcome;
use crate::parse::parser::Parser;
use crate::parse::tokenizer::{errors_of_text, tokens_of_text, Tokenizer};

verus! {

/// The messages of a sequence of diagnostics, one after the other.
pub open spec fn errors_text(errors: Seq<ErrorModel>) -> Seq<char>
    decreases errors.len(),
{
    if errors.len() == 0 {
        Seq::empty()
    } else {
        errors_text(errors.drop_last()) + error_text(errors.last())
    }
}

/// The words for an expression that has no value.
pub open spec fn failure_text(error: EvalError) -> Seq<char> {
    match error {
        EvalError::DivisionByZero => "division by zero"@,
        EvalError::Overflow => "overflow"@,
    }
}

/// The report on an input text: the messages of the tokenizer, those of
/// the parser and, where there is a tree, a line with its text and a line
/// with its value, or with the reason why it has none. Without a tree the
/// report holds the messages only.
pub open spec fn report_text(text: Seq<char>) -> Seq<char> {
    let outcome = parse_outcome(tokens_of_text(text));
    errors_text(errors_of_text(text)) + errors_text(outcome.errors) + match outcome.ast {
        Some(ast) => "\nAST: "@ + expression_text(ast) + "\nResult: "@ + match ast.value() {
            Ok(value) => integer_text(value),
            Err(error) => failure_text(error),
        },
        None => Seq::empty(),
    }
}

impl Render for EvalError {
    open spec fn text(&self) -> Seq<char> {
        failure_text(*self)
    }

    fn render(&self, buf: &mut String) {
        match self {
            EvalError::DivisionByZero => buf.append("division by zero"),
            EvalError::Overflow => buf.append("overflow"),
        }
    }
}

/// Appends the messages of `errors` to `buf`, in their order.
pub fn render_errors<'a>(errors: &Vec<ErrorKind<'a>>, buf: &mut String)
    ensures
        final(buf)@ == old(buf)@ + errors_text(error_models(errors@)),
{
    let ghost models = error_models(errors@);
    let mut i: usize = 0;
    assert(models.take(0) =~= Seq::<ErrorModel>::empty());
    assert(buf@ =~= old(buf)@ + errors_text(models.take(0)));
    while i < errors.len()
        invariant
            i <= errors.len(),
            models == error_models(errors@),
            buf@ == old(buf)@ + errors_text(models.take(i as int)),
        decreases errors.len() - i,
    {
        errors[i].render(buf);
        proof {
            let upto = models.take(i as int + 1);
            assert(upto.drop_last() =~= models.take(i as int));
            assert(upto.last() == errors@[i as int]@);
            assert(buf@ =~= old(buf)@ + errors_text(upto));
        }
        i += 1;
    }
    assert(models.take(i as int) =~= models);
}

/// Scans, parses and evaluates `input`, and gives the report on it.
pub fn report(input: &String) -> (r: String)
    ensures
        r@ == report_text(input@),
{
    let mut tokenizer = Tokenizer::new(input);
    let scanned = tokenizer.tokenize();
    let tokens = scanned.0;
    let mut parser = Parser::new(&tokens);
    let parsed = parser.parse();
    let mut buf = String::new();
    render_errors(&scanned.1, &mut buf);
    render_errors(&parsed.1, &mut buf);
    match parsed.0 {
        Some(ast) => {
            buf.append("\nAST: ");
            ast.render(&mut buf);
            buf.append("\nResult: ");
            match ast.evaluate() {
                Ok(value) => push_integer(&mut buf, value),
                Err(error) => error.render(&mut buf),
            }
        },
        None => {},
    }
    assert(buf@ =~= report_text(input@));
    buf
}

} // verus!
