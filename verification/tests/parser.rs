use rust_chibicc::grammar::{Expr, InfixOp, Precedence, PrefixOp};
use rust_chibicc::lexer::{LexError, Lexer, Token};
use rust_chibicc::parser::Parser;

fn parser_over(input: &str) -> Parser {
    Parser::new(Lexer::new(input.chars().collect())).unwrap()
}

fn parse(input: &str) -> Result<Option<Box<Expr>>, LexError> {
    Parser::new(Lexer::new(input.chars().collect()))?.parse()
}

fn number(n: u64) -> Box<Expr> {
    Box::new(Expr::Number(n))
}

fn infix(left: Box<Expr>, operator: InfixOp, right: Box<Expr>) -> Box<Expr> {
    Box::new(Expr::InfixExpr { left, operator, right })
}

fn negated(right: Box<Expr>) -> Box<Expr> {
    Box::new(Expr::PrefixExpr { operator: PrefixOp::Minus, right })
}

/// The label under which the expected strings of `test_parser` know an
/// infix operator.
fn infix_label(operator: &InfixOp) -> &'static str {
    match operator {
        InfixOp::Plus => "Plus",
        InfixOp::Minus => "Minus",
        InfixOp::Times => "Asterisk",
        InfixOp::Divides => "Slash",
    }
}

/// A tree in the notation of the expected strings of `test_parser`: numbers
/// with a decimal point, operators as quoted labels.
fn show(expr: &Expr) -> String {
    match expr {
        Expr::Number(n) => format!("Number({:?})", *n as f64),
        Expr::PrefixExpr { operator: PrefixOp::Minus, right } => {
            format!("PrefixExpr {{ operator: {:?}, right: {} }}", "Minus", show(right))
        }
        Expr::InfixExpr { left, operator, right } => format!(
            "InfixExpr {{ left: {}, operator: {:?}, right: {} }}",
            show(left),
            infix_label(operator),
            show(right)
        ),
    }
}

fn do_parser(input: &str, expect: &str) {
    let lexer = Lexer::new(input.chars().collect());
    let mut parser = Parser::new(lexer).unwrap();
    let shown = match parser.parse().unwrap() {
        Some(expr) => format!("Some({})", show(&expr)),
        None => format!("None"),
    };
    assert_eq!(shown, expect);
}

#[test]
fn test_parser() {
    do_parser(
        "1 + 2",
        r#"Some(InfixExpr { left: Number(1.0), operator: "Plus", right: Number(2.0) })"#,
    );
    do_parser(
        "- 1 + 2 * 3",
        r#"Some(InfixExpr { left: PrefixExpr { operator: "Minus", right: Number(1.0) }, operator: "Plus", right: InfixExpr { left: Number(2.0), operator: "Asterisk", right: Number(3.0) } })"#,
    );
}

#[test]
fn trees_of_the_two_sample_texts() {
    assert_eq!(parse("1 + 2"), Ok(Some(infix(number(1), InfixOp::Plus, number(2)))));
    assert_eq!(
        parse("- 1 + 2 * 3"),
        Ok(Some(infix(
            negated(number(1)),
            InfixOp::Plus,
            infix(number(2), InfixOp::Times, number(3))
        )))
    );
}

#[test]
fn a_number_alone() {
    assert_eq!(parse("42"), Ok(Some(number(42))));
    assert_eq!(parse("  42  "), Ok(Some(number(42))));
}

#[test]
fn product_binds_more_tightly_than_sum() {
    let product = || infix(number(2), InfixOp::Times, number(3));
    assert_eq!(parse("1 + 2 * 3"), Ok(Some(infix(number(1), InfixOp::Plus, product()))));
    assert_eq!(parse("2 * 3 + 1"), Ok(Some(infix(product(), InfixOp::Plus, number(1)))));
    assert_eq!(
        parse("8 - 6 / 2"),
        Ok(Some(infix(number(8), InfixOp::Minus, infix(number(6), InfixOp::Divides, number(2)))))
    );
    assert_eq!(
        parse("1 * 2 + 3 * 4"),
        Ok(Some(infix(
            infix(number(1), InfixOp::Times, number(2)),
            InfixOp::Plus,
            infix(number(3), InfixOp::Times, number(4))
        )))
    );
}

#[test]
fn operators_of_one_precedence_group_to_the_left() {
    assert_eq!(
        parse("1 - 2 - 3"),
        Ok(Some(infix(infix(number(1), InfixOp::Minus, number(2)), InfixOp::Minus, number(3))))
    );
    assert_eq!(
        parse("1 - 2 + 3"),
        Ok(Some(infix(infix(number(1), InfixOp::Minus, number(2)), InfixOp::Plus, number(3))))
    );
    assert_eq!(
        parse("8 / 4 / 2"),
        Ok(Some(infix(infix(number(8), InfixOp::Divides, number(4)), InfixOp::Divides, number(2))))
    );
    assert_eq!(
        parse("8 / 4 * 2"),
        Ok(Some(infix(infix(number(8), InfixOp::Divides, number(4)), InfixOp::Times, number(2))))
    );
}

#[test]
fn parentheses_group_and_leave_no_node() {
    assert_eq!(
        parse("(1 + 2) * 3"),
        Ok(Some(infix(infix(number(1), InfixOp::Plus, number(2)), InfixOp::Times, number(3))))
    );
    assert_eq!(
        parse("1 - (2 - 3)"),
        Ok(Some(infix(number(1), InfixOp::Minus, infix(number(2), InfixOp::Minus, number(3)))))
    );
    assert_eq!(parse("(7)"), Ok(Some(number(7))));
    assert_eq!(parse("((7))"), Ok(Some(number(7))));
}

#[test]
fn prefix_minus_binds_most_tightly() {
    assert_eq!(parse("-1"), Ok(Some(negated(number(1)))));
    assert_eq!(parse("--1"), Ok(Some(negated(negated(number(1))))));
    assert_eq!(
        parse("-1 * 2"),
        Ok(Some(infix(negated(number(1)), InfixOp::Times, number(2))))
    );
    assert_eq!(
        parse("1 - -2"),
        Ok(Some(infix(number(1), InfixOp::Minus, negated(number(2)))))
    );
    assert_eq!(
        parse("-(3 / 3)"),
        Ok(Some(negated(infix(number(3), InfixOp::Divides, number(3)))))
    );
    assert_eq!(
        parse("2 * -3 + 4"),
        Ok(Some(infix(
            infix(number(2), InfixOp::Times, negated(number(3))),
            InfixOp::Plus,
            number(4)
        )))
    );
}

#[test]
fn malformed_texts_have_no_tree() {
    assert_eq!(parse(""), Ok(None));
    assert_eq!(parse("   "), Ok(None));
    assert_eq!(parse("(1 + 2"), Ok(None));
    assert_eq!(parse("(1 + 2 3"), Ok(None));
    assert_eq!(parse("1 +"), Ok(None));
    assert_eq!(parse("1 + * 2"), Ok(None));
    assert_eq!(parse("* 2"), Ok(None));
    assert_eq!(parse(")"), Ok(None));
    assert_eq!(parse("()"), Ok(None));
    assert_eq!(parse("-"), Ok(None));
    assert_eq!(parse("(-)"), Ok(None));
    assert_eq!(parse("1 * (2 + )"), Ok(None));
}

#[test]
fn tokens_behind_the_expression_are_not_read() {
    assert_eq!(parse("1 2"), Ok(Some(number(1))));
    assert_eq!(parse("1 + 2 3 4"), Ok(Some(infix(number(1), InfixOp::Plus, number(2)))));
    assert_eq!(parse("1 )"), Ok(Some(number(1))));
    assert_eq!(parse("1 ) & x y"), Ok(Some(number(1))));
    assert_eq!(parse("(1) (2 ?"), Ok(Some(number(1))));
}

#[test]
fn lexical_errors_that_the_parser_meets() {
    let ampersand = LexError::UnexpectedChar { ch: '&', position: 2 };
    assert_eq!(parse("1 & 2"), Err(ampersand));
    assert_eq!(parse("& 1"), Err(LexError::UnexpectedChar { ch: '&', position: 0 }));
    assert_eq!(parse("1 + 2 garbage"), Err(LexError::UnexpectedChar { ch: 'g', position: 6 }));
    assert_eq!(parse("(1 + 2 ]"), Err(LexError::UnexpectedChar { ch: ']', position: 7 }));
    assert_eq!(parse("1 + x"), Err(LexError::UnexpectedChar { ch: 'x', position: 4 }));
    assert_eq!(parse("- ~"), Err(LexError::UnexpectedChar { ch: '~', position: 2 }));
    assert_eq!(parse("(1) %"), Err(LexError::UnexpectedChar { ch: '%', position: 4 }));
    assert_eq!(parse("2 * 99999999999999999999"), Err(LexError::NumberTooLarge { position: 4 }));
    assert_eq!(parse("1 * (2 + ) !"), Err(LexError::UnexpectedChar { ch: '!', position: 11 }));
    assert_eq!(parse("1 * (2 + ) 3 !"), Ok(None));
}

#[test]
fn a_parser_needs_two_tokens_or_the_end() {
    assert!(Parser::new(Lexer::new("".chars().collect())).is_ok());
    assert!(Parser::new(Lexer::new("1".chars().collect())).is_ok());
    assert!(Parser::new(Lexer::new("1 2 ?".chars().collect())).is_ok());
    assert_eq!(
        Parser::new(Lexer::new("1 ?".chars().collect())).err(),
        Some(LexError::UnexpectedChar { ch: '?', position: 2 })
    );
    assert_eq!(
        Parser::new(Lexer::new("?".chars().collect())).err(),
        Some(LexError::UnexpectedChar { ch: '?', position: 0 })
    );
}

#[test]
fn a_parser_reads_on_where_the_lexer_stands() {
    let mut lexer = Lexer::new("1 + 2 * 3".chars().collect());
    assert_eq!(lexer.token(), Ok(Some(Token::Number(1))));
    assert_eq!(lexer.token(), Ok(Some(Token::Plus)));
    let mut parser = Parser::new(lexer).unwrap();
    assert_eq!(parser.parse(), Ok(Some(infix(number(2), InfixOp::Times, number(3)))));
}

#[test]
fn expression_above_a_precedence() {
    let mut parser = parser_over("1 + 2 * 3");
    assert_eq!(parser.parse_expression(Precedence::Sum), Ok(Some(number(1))));
    assert!(parser.is_peek(&Token::Plus));

    let mut parser = parser_over("1 * 2 + 3");
    assert_eq!(
        parser.parse_expression(Precedence::Sum),
        Ok(Some(infix(number(1), InfixOp::Times, number(2))))
    );
    assert!(parser.is_peek(&Token::Plus));

    let mut parser = parser_over("1 * 2 + 3");
    assert_eq!(parser.parse_expression(Precedence::Product), Ok(Some(number(1))));
    assert!(parser.is_peek(&Token::Times));

    let mut parser = parser_over("1 * 2 + 3");
    assert_eq!(parser.parse_expression(Precedence::Prefix), Ok(Some(number(1))));
}

#[test]
fn lookahead() {
    let mut parser = parser_over("1 + (");
    assert!(parser.is_peek(&Token::Plus));
    assert!(!parser.is_peek(&Token::Minus));
    assert!(!parser.is_peek(&Token::Number(1)));
    assert_eq!(parser.peek_precedence(), Precedence::Sum);
    assert_eq!(parser.next(), Ok(()));
    assert!(parser.is_peek(&Token::LParen));
    assert_eq!(parser.peek_precedence(), Precedence::Lowest);
    assert_eq!(parser.next(), Ok(()));
    assert!(!parser.is_peek(&Token::LParen));
    assert_eq!(parser.peek_precedence(), Precedence::Lowest);
    assert_eq!(parser.next(), Ok(()));
    assert_eq!(parser.next(), Ok(()));
    assert_eq!(parser.parse(), Ok(None));
}

#[test]
fn lookahead_compares_kinds_not_values() {
    let parser = parser_over("1 22");
    assert!(parser.is_peek(&Token::Number(22)));
    assert!(parser.is_peek(&Token::Number(0)));
    assert!(!parser.is_peek(&Token::RParen));
    let parser = parser_over("1");
    assert!(!parser.is_peek(&Token::Number(1)));
}

#[test]
fn a_step_fails_where_the_lexer_fails() {
    let mut parser = parser_over("1 + ?");
    let error = Err(LexError::UnexpectedChar { ch: '?', position: 4 });
    assert_eq!(parser.next(), error);
    assert_eq!(parser.next(), error);
    assert!(parser.is_peek(&Token::Plus));
    assert_eq!(parser.parse_number(), Ok(Some(number(1))));
}

#[test]
fn precedence_of_tokens() {
    assert_eq!(Parser::token_precedence(&Token::Plus), Precedence::Sum);
    assert_eq!(Parser::token_precedence(&Token::Minus), Precedence::Sum);
    assert_eq!(Parser::token_precedence(&Token::Times), Precedence::Product);
    assert_eq!(Parser::token_precedence(&Token::Divides), Precedence::Product);
    assert_eq!(Parser::token_precedence(&Token::Number(3)), Precedence::Lowest);
    assert_eq!(Parser::token_precedence(&Token::LParen), Precedence::Lowest);
    assert_eq!(Parser::token_precedence(&Token::RParen), Precedence::Lowest);
}

#[test]
fn precedences_are_ordered() {
    assert!(Precedence::Lowest.level() < Precedence::Sum.level());
    assert!(Precedence::Sum.level() < Precedence::Product.level());
    assert!(Precedence::Product.level() < Precedence::Prefix.level());
    let all = [Precedence::Lowest, Precedence::Sum, Precedence::Product, Precedence::Prefix];
    for a in all {
        for b in all {
            assert_eq!(a < b, a.level() < b.level());
            assert_eq!(a == b, a.level() == b.level());
        }
    }
}

#[test]
fn prefix_productions() {
    assert_eq!(parser_over("5 + 1").parse_prefix(), Ok(Some(number(5))));
    assert_eq!(parser_over("-5 + 1").parse_prefix(), Ok(Some(negated(number(5)))));
    assert_eq!(
        parser_over("(5 + 1) * 2").parse_prefix(),
        Ok(Some(infix(number(5), InfixOp::Plus, number(1))))
    );
    assert_eq!(parser_over("+ 5").parse_prefix(), Ok(None));
    assert_eq!(parser_over("").parse_prefix(), Ok(None));

    assert_eq!(parser_over("5").parse_number(), Ok(Some(number(5))));
    assert_eq!(parser_over("(5)").parse_number(), Ok(None));
    assert_eq!(parser_over("- 5 * 2").parse_minus(), Ok(Some(negated(number(5)))));
    assert_eq!(parser_over("-").parse_minus(), Ok(None));
    assert_eq!(parser_over("").parse_minus(), Ok(None));
    assert_eq!(parser_over("(5)").parse_grouped_expression(), Ok(Some(number(5))));
    assert_eq!(parser_over("(5").parse_grouped_expression(), Ok(None));
    assert_eq!(parser_over("").parse_grouped_expression(), Ok(None));
}

#[test]
fn infix_productions() {
    let mut parser = parser_over("+ 2 * 3 - 4");
    assert_eq!(
        parser.parse_infix(number(1)),
        Ok(Some(infix(number(1), InfixOp::Plus, infix(number(2), InfixOp::Times, number(3)))))
    );
    assert!(parser.is_peek(&Token::Minus));

    let mut parser = parser_over("* 2 * 3");
    assert_eq!(
        parser.parse_infix_expression(number(1)),
        Ok(Some(infix(number(1), InfixOp::Times, number(2))))
    );
    assert!(parser.is_peek(&Token::Times));

    assert_eq!(parser_over(") 2").parse_infix(number(1)), Ok(Some(number(1))));
    assert_eq!(parser_over("7 2").parse_infix(number(1)), Ok(Some(number(1))));
    assert_eq!(parser_over("").parse_infix(number(1)), Ok(None));
    assert_eq!(parser_over("+").parse_infix(number(1)), Ok(None));
    assert_eq!(parser_over(") 2").parse_infix_expression(number(1)), Ok(None));
    assert_eq!(parser_over("").parse_infix_expression(number(1)), Ok(None));
}

#[test]
fn parsing_again_gives_the_same_tree() {
    for text in ["1 + (2 + 3) * -(3 / 3)", "(1 + 2", "1 & 2", "", "4 4"] {
        assert_eq!(parse(text), parse(text));
    }
}
