use rust_chibicc::calc::{calculate, CalcError};
use rust_chibicc::eval::EvalError;
use rust_chibicc::lexer::LexError;

fn calc(text: &str) -> Result<i128, CalcError> {
    calculate(text.chars().collect())
}

#[test]
fn precedence() {
    assert_eq!(calc("1 + 2 * 3"), Ok(7));
    assert_eq!(calc("1 - 2 - 3"), Ok(-4));
    assert_eq!(calc("2 * 3 + 4"), Ok(10));
    assert_eq!(calc("100 / 10 / 5"), Ok(2));
}

#[test]
fn grouping() {
    assert_eq!(calc("(1 + 2) * 3"), Ok(9));
    assert_eq!(calc("1 - (2 - 3)"), Ok(2));
    assert_eq!(calc("(1 + 2"), Err(CalcError::Parse));
}

#[test]
fn unary_minus() {
    assert_eq!(calc("-(3 / 3)"), Ok(-1));
    assert_eq!(calc("1 + (2 + 3) * -(3 / 3)"), Ok(-4));
    assert_eq!(calc("-2 * -3"), Ok(6));
    assert_eq!(calc("- - 2"), Ok(2));
}

#[test]
fn division() {
    assert_eq!(calc("7 / 2"), Ok(3));
    assert_eq!(calc("-7 / 2"), Ok(-3));
    assert_eq!(calc("1 / 0"), Err(CalcError::Eval(EvalError::DivisionByZero)));
    assert_eq!(calc("1 / (2 - 2)"), Err(CalcError::Eval(EvalError::DivisionByZero)));
}

#[test]
fn lexical_rejection() {
    assert_eq!(
        calc("1 & 2"),
        Err(CalcError::Lex(LexError::UnexpectedChar { ch: '&', position: 2 }))
    );
    assert_eq!(calc("abc"), Err(CalcError::Lex(LexError::UnexpectedChar { ch: 'a', position: 0 })));
    assert_eq!(
        calc("1 + 99999999999999999999"),
        Err(CalcError::Lex(LexError::NumberTooLarge { position: 4 }))
    );
}

#[test]
fn idempotence() {
    for text in ["1 + (2 + 3) * -(3 / 3)", "7 / 2", "1 / 0", "(1 + 2", "1 & 2", ""] {
        let first = calc(text);
        assert_eq!(calc(text), first);
        assert_eq!(calc(text), first);
    }
}

#[test]
fn whitespace_does_not_matter() {
    assert_eq!(calc("1+2*3"), Ok(7));
    assert_eq!(calc("  1\t+\n2 *\r\n3  "), Ok(7));
    assert_eq!(calc("12 + 3"), Ok(15));
}

#[test]
fn empty_text_is_no_expression() {
    assert_eq!(calc(""), Err(CalcError::Parse));
    assert_eq!(calc("  "), Err(CalcError::Parse));
}

#[test]
fn what_follows_the_expression_is_ignored() {
    assert_eq!(calc("1 + 2 3"), Ok(3));
    assert_eq!(calc("4 ) / 0"), Ok(4));
    assert_eq!(calc("4 ) &"), Ok(4));
}

#[test]
fn large_values() {
    assert_eq!(calc("18446744073709551615"), Ok(18446744073709551615));
    assert_eq!(calc("-18446744073709551615"), Ok(-18446744073709551615));
    assert_eq!(
        calc("18446744073709551615 * 18446744073709551615"),
        Err(CalcError::Eval(EvalError::Overflow))
    );
    assert_eq!(
        calc("9223372036854775808 * 9223372036854775808"),
        Ok(85070591730234615865843651857942052864)
    );
}
