//! From a line of text to its value: lexer, parser and evaluator in a row.

use crate::eval::{eval, value, EvalError};
use crate::grammar::{parse, Parsed};
use crate::lexer::{failure_from, tokens_from, LexError, Lexer};
use crate::parser::Parser;
use vstd::prelude::*;

verus! {

/// Why a line of text has no value.
#[derive(Debug, PartialEq, Eq, Clone, Copy)]
pub enum CalcError {
    /// The text holds something that is no token, and the parser came
    /// across it.
    Lex(LexError),
    /// The tokens do not start with an expression.
    Parse,
    /// The expression has no value.
    Eval(EvalError),
}

/// The value of the expression that the text `s` starts with.
///
/// The parser takes from the lexer what it needs for that expression and one
/// token more. What follows is never read: neither tokens nor errors
/// there change the value.
pub open spec fn calculation(s: Seq<char>) -> Result<int, CalcError> {
    match parse(tokens_from(s, 0), failure_from(s, 0)) {
        Parsed::Tree { expr, .. } => match value(expr) {
            Ok(v) => Ok(v),
            Err(e) => Err(CalcError::Eval(e)),
        },
        Parsed::Malformed { .. } => Err(CalcError::Parse),
        Parsed::Failed { error, .. } => Err(CalcError::Lex(error)),
    }
}

/// Reads the expression at the start of `input` and evaluates it.
pub fn calculate(input: Vec<char>) -> (r: Result<i128, CalcError>)
    ensures
        match r {
            Ok(v) => calculation(input@) == Ok::<int, CalcError>(v as int),
            Err(e) => calculation(input@) == Err::<int, CalcError>(e),
        },
{
    let lexer = Lexer::new(input);
    let mut parser = match Parser::new(lexer) {
        Ok(parser) => parser,
        Err(e) => {
            return Err(CalcError::Lex(e));
        },
    };
    let expr = match parser.parse() {
        Ok(Some(expr)) => expr,
        Ok(None) => {
            return Err(CalcError::Parse);
        },
        Err(e) => {
            return Err(CalcError::Lex(e));
        },
    };
    match eval(&expr) {
        Ok(v) => Ok(v),
        Err(e) => Err(CalcError::Eval(e)),
    }
}

} // verus!
