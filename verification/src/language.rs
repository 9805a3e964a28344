//! The language of expressions as a grammar with one rule for each level of
//! precedence, and the proof that the parser reads exactly this language.
//!
//! ```text
//! sum     = product { ("+" | "-") product }
//! product = unary { ("*" | "/") unary }
//! unary   = "-" unary | atom
//! atom    = number | "(" sum ")"
//! ```
//!
//! The operators of a rule group to the left. The functions below read a
//! token sequence by these rules; they stand for a text that the lexer
//! reads to its end.

use crate::grammar::{
    climb, expression, first, infix, infix_op, lemma_rest_rest, minus, number,
    grouped, parse, precedence_of, prefix, rest, second, Expr, Parsed, Precedence, PrefixOp,
};
use crate::lexer::Token;
use vstd::prelude::*;

verus! {

/// The lookahead is `*` or `/`.
pub open spec fn product_goes_on(tokens: Seq<Token>) -> bool {
    second(tokens) == Some(Token::Times) || second(tokens) == Some(Token::Divides)
}

/// The lookahead is `+` or `-`.
pub open spec fn sum_goes_on(tokens: Seq<Token>) -> bool {
    second(tokens) == Some(Token::Plus) || second(tokens) == Some(Token::Minus)
}

/// The infix expression of `left`, the operator in the lookahead and an
/// outcome for the right operand, which starts behind the operator.
pub open spec fn joined(tokens: Seq<Token>, left: Expr, right: Parsed) -> Parsed {
    match right.after(2) {
        Parsed::Tree { expr, advanced } => Parsed::Tree {
            expr: Expr::InfixExpr {
                left: Box::new(left),
                operator: infix_op(tokens[1])->0,
                right: Box::new(expr),
            },
            advanced,
        },
        other => other,
    }
}

/// `atom = number | "(" sum ")"`
pub open spec fn atom(tokens: Seq<Token>) -> Parsed
    decreases tokens.len(), 0nat,
{
    match first(tokens) {
        Some(Token::Number(n)) => Parsed::Tree { expr: Expr::Number(n), advanced: 0 },
        Some(Token::LParen) => match sum(rest(tokens, 1)).after(1) {
            Parsed::Tree { expr, advanced } => if second(rest(tokens, advanced)) == Some(
                Token::RParen,
            ) {
                Parsed::Tree { expr, advanced: advanced + 1 }
            } else {
                Parsed::Malformed { advanced }
            },
            other => other,
        },
        _ => Parsed::Malformed { advanced: 0 },
    }
}

/// `unary = "-" unary | atom`
pub open spec fn unary(tokens: Seq<Token>) -> Parsed
    decreases tokens.len(), 1nat,
{
    if first(tokens) == Some(Token::Minus) {
        match unary(rest(tokens, 1)).after(1) {
            Parsed::Tree { expr, advanced } => Parsed::Tree {
                expr: Expr::PrefixExpr { operator: PrefixOp::Minus, right: Box::new(expr) },
                advanced,
            },
            other => other,
        }
    } else {
        atom(tokens)
    }
}

/// `{ ("*" | "/") unary }` behind the operand `left`, which ends at the
/// current token.
pub open spec fn product_tail(tokens: Seq<Token>, left: Expr) -> Parsed
    decreases tokens.len(), 0nat,
{
    if product_goes_on(tokens) {
        match joined(tokens, left, unary(rest(tokens, 2))) {
            Parsed::Tree { expr, advanced } => product_tail(rest(tokens, advanced), expr).after(
                advanced,
            ),
            other => other,
        }
    } else {
        Parsed::Tree { expr: left, advanced: 0 }
    }
}

/// `product = unary { ("*" | "/") unary }`
pub open spec fn product(tokens: Seq<Token>) -> Parsed
    decreases tokens.len(), 2nat,
{
    match unary(tokens) {
        Parsed::Tree { expr, advanced } => product_tail(rest(tokens, advanced), expr).after(
            advanced,
        ),
        other => other,
    }
}

/// `{ ("+" | "-") product }` behind the operand `left`, which ends at the
/// current token.
pub open spec fn sum_tail(tokens: Seq<Token>, left: Expr) -> Parsed
    decreases tokens.len(), 0nat,
{
    if sum_goes_on(tokens) {
        match joined(tokens, left, product(rest(tokens, 2))) {
            Parsed::Tree { expr, advanced } => sum_tail(rest(tokens, advanced), expr).after(
                advanced,
            ),
            other => other,
        }
    } else {
        Parsed::Tree { expr: left, advanced: 0 }
    }
}

/// `sum = product { ("+" | "-") product }`
pub open spec fn sum(tokens: Seq<Token>) -> Parsed
    decreases tokens.len(), 3nat,
{
    match product(tokens) {
        Parsed::Tree { expr, advanced } => sum_tail(rest(tokens, advanced), expr).after(advanced),
        other => other,
    }
}

/// A product ends where no `*` and no `/` follows.
pub proof fn lemma_product_tail_ends(tokens: Seq<Token>, left: Expr)
    ensures
        product_tail(tokens, left) is Tree ==> !product_goes_on(
            rest(tokens, product_tail(tokens, left).moved()),
        ),
    decreases tokens.len(),
{
    lemma_rest_rest(tokens, 0, 0);
    if product_goes_on(tokens) {
        if let Parsed::Tree { expr, advanced } = joined(tokens, left, unary(rest(tokens, 2))) {
            lemma_product_tail_ends(rest(tokens, advanced), expr);
            lemma_rest_rest(tokens, advanced, product_tail(rest(tokens, advanced), expr).moved());
        }
    }
}

/// A sum that goes on behind the outcome `head` of a product.
pub open spec fn sum_behind(tokens: Seq<Token>, head: Parsed) -> Parsed {
    match head {
        Parsed::Tree { expr, advanced } => sum_tail(rest(tokens, advanced), expr).after(advanced),
        other => other,
    }
}

/// A product that goes on behind the outcome `head` of an operand.
pub open spec fn product_behind(tokens: Seq<Token>, head: Parsed) -> Parsed {
    match head {
        Parsed::Tree { expr, advanced } => product_tail(rest(tokens, advanced), expr).after(
            advanced,
        ),
        other => other,
    }
}

/// The step that the parser takes from an operand over an operator to the
/// right operand.
proof fn lemma_infix_step(tokens: Seq<Token>, left: Expr)
    requires
        product_goes_on(tokens) || sum_goes_on(tokens),
    ensures
        infix(rest(tokens, 1), None, left).after(1) == joined(
            tokens,
            left,
            expression(rest(tokens, 2), None, precedence_of(tokens[1])),
        ),
{
    lemma_rest_rest(tokens, 1, 1);
    assert(first(rest(tokens, 1)) == Some(tokens[1]));
}

/// Above the precedence of a product no operator is taken in.
proof fn lemma_climb_above(tokens: Seq<Token>, left: Expr, min: Precedence)
    requires
        min == Precedence::Product || min == Precedence::Prefix,
    ensures
        climb(tokens, None, left, min) == (Parsed::Tree { expr: left, advanced: 0 }),
{
}

/// Above the precedence of a sum the parser takes in a product.
proof fn lemma_climb_product(tokens: Seq<Token>, left: Expr)
    ensures
        climb(tokens, None, left, Precedence::Sum) == product_tail(tokens, left),
    decreases tokens.len(), 0nat,
{
    if product_goes_on(tokens) {
        lemma_infix_step(tokens, left);
        lemma_parser_reads_the_grammar(rest(tokens, 2));
        if let Parsed::Tree { expr, advanced } = joined(tokens, left, unary(rest(tokens, 2))) {
            lemma_climb_product(rest(tokens, advanced), expr);
        }
    }
}

/// One step of the parser at the lowest precedence, over `*` or `/`.
proof fn lemma_climb_sum_over_product(tokens: Seq<Token>, left: Expr)
    requires
        product_goes_on(tokens),
        expression(rest(tokens, 2), None, Precedence::Product) == unary(rest(tokens, 2)),
        joined(tokens, left, unary(rest(tokens, 2))) matches Parsed::Tree { expr, advanced }
            ==> climb(rest(tokens, advanced), None, expr, Precedence::Lowest) == sum_behind(
            rest(tokens, advanced),
            product_tail(rest(tokens, advanced), expr),
        ),
    ensures
        climb(tokens, None, left, Precedence::Lowest) == sum_behind(
            tokens,
            product_tail(tokens, left),
        ),
{
    lemma_infix_step(tokens, left);
    let step = joined(tokens, left, unary(rest(tokens, 2)));
    assert(infix(rest(tokens, 1), None, left).after(1) == step);
    if let Parsed::Tree { expr, advanced } = step {
        let behind = product_tail(rest(tokens, advanced), expr);
        assert(product_tail(tokens, left) == behind.after(advanced));
        assert(climb(tokens, None, left, Precedence::Lowest) == sum_behind(
            rest(tokens, advanced),
            behind,
        ).after(advanced));
        lemma_rest_rest(tokens, advanced, behind.moved());
    } else {
        assert(product_tail(tokens, left) == step);
        assert(climb(tokens, None, left, Precedence::Lowest) == step);
    }
}

/// One step of the parser at the lowest precedence, over `+` or `-`.
proof fn lemma_climb_sum_over_sum(tokens: Seq<Token>, left: Expr)
    requires
        sum_goes_on(tokens),
        expression(rest(tokens, 2), None, Precedence::Sum) == product(rest(tokens, 2)),
        joined(tokens, left, product(rest(tokens, 2))) matches Parsed::Tree { expr, advanced }
            ==> climb(rest(tokens, advanced), None, expr, Precedence::Lowest) == sum_behind(
            rest(tokens, advanced),
            product_tail(rest(tokens, advanced), expr),
        ) && !product_goes_on(rest(tokens, advanced)),
    ensures
        climb(tokens, None, left, Precedence::Lowest) == sum_behind(
            tokens,
            product_tail(tokens, left),
        ),
{
    lemma_infix_step(tokens, left);
    lemma_rest_rest(tokens, 0, 0);
    let step = joined(tokens, left, product(rest(tokens, 2)));
    assert(infix(rest(tokens, 1), None, left).after(1) == step);
    assert(product_tail(tokens, left) == Parsed::Tree { expr: left, advanced: 0 });
    assert(sum_behind(tokens, product_tail(tokens, left)) == sum_tail(tokens, left));
    if let Parsed::Tree { expr, advanced } = step {
        lemma_rest_rest(rest(tokens, advanced), 0, 0);
        assert(product_tail(rest(tokens, advanced), expr) == Parsed::Tree { expr, advanced: 0 });
        assert(climb(rest(tokens, advanced), None, expr, Precedence::Lowest) == sum_tail(
            rest(tokens, advanced),
            expr,
        ));
        assert(sum_tail(tokens, left) == sum_tail(rest(tokens, advanced), expr).after(advanced));
    } else {
        assert(sum_tail(tokens, left) == step);
        assert(climb(tokens, None, left, Precedence::Lowest) == step);
    }
}

/// Where a product ends if it is a tree: behind it no `*` and no `/`
/// follows.
proof fn lemma_product_ends(tokens: Seq<Token>)
    ensures
        product(tokens) is Tree ==> !product_goes_on(rest(tokens, product(tokens).moved())),
{
    if let Parsed::Tree { expr, advanced } = unary(tokens) {
        lemma_product_tail_ends(rest(tokens, advanced), expr);
        lemma_rest_rest(tokens, advanced, product_tail(rest(tokens, advanced), expr).moved());
    }
}

/// At the lowest precedence the parser takes in what is left of a product
/// and then what is left of a sum.
proof fn lemma_climb_sum(tokens: Seq<Token>, left: Expr)
    ensures
        climb(tokens, None, left, Precedence::Lowest) == sum_behind(
            tokens,
            product_tail(tokens, left),
        ),
    decreases tokens.len(), 0nat,
{
    if product_goes_on(tokens) {
        lemma_parser_reads_the_grammar(rest(tokens, 2));
        if let Parsed::Tree { expr, advanced } = joined(tokens, left, unary(rest(tokens, 2))) {
            lemma_climb_sum(rest(tokens, advanced), expr);
        }
        lemma_climb_sum_over_product(tokens, left);
    } else if sum_goes_on(tokens) {
        lemma_parser_reads_the_grammar(rest(tokens, 2));
        if let Parsed::Tree { expr, advanced } = joined(tokens, left, product(rest(tokens, 2))) {
            lemma_climb_sum(rest(tokens, advanced), expr);
            lemma_product_ends(rest(tokens, 2));
            lemma_rest_rest(tokens, 2, product(rest(tokens, 2)).moved());
        }
        lemma_climb_sum_over_sum(tokens, left);
    } else {
        lemma_rest_rest(tokens, 0, 0);
    }
}

/// What the parser makes of the start of an expression, given what it
/// makes of the tokens behind the first.
proof fn lemma_prefix_is_unary(tokens: Seq<Token>)
    requires
        tokens.len() > 0 ==> expression(rest(tokens, 1), None, Precedence::Prefix) == unary(
            rest(tokens, 1),
        ) && expression(rest(tokens, 1), None, Precedence::Lowest) == sum(rest(tokens, 1)),
    ensures
        prefix(tokens, None) == unary(tokens),
{
    match first(tokens) {
        Some(Token::Minus) => {
            assert(prefix(tokens, None) == minus(tokens, None));
        },
        Some(Token::LParen) => {
            assert(prefix(tokens, None) == grouped(tokens, None));
            assert(unary(tokens) == atom(tokens));
        },
        Some(Token::Number(_)) => {
            assert(prefix(tokens, None) == number(tokens));
            assert(unary(tokens) == atom(tokens));
        },
        _ => {
            assert(unary(tokens) == atom(tokens));
        },
    }
}

/// An expression is its first operand and what the parser takes in behind
/// it.
proof fn lemma_expression_unfolds(tokens: Seq<Token>, min: Precedence)
    ensures
        expression(tokens, None, min) == match prefix(tokens, None) {
            Parsed::Tree { expr, advanced } => climb(rest(tokens, advanced), None, expr, min).after(
                advanced,
            ),
            other => other,
        },
{
}

/// The sum behind the outcome of a product is the sum.
proof fn lemma_sum_unfolds(tokens: Seq<Token>)
    ensures
        sum(tokens) == sum_behind(tokens, product(tokens)),
        product(tokens) == product_behind(tokens, unary(tokens)),
        unary(tokens) matches Parsed::Tree { expr, advanced } ==> sum(tokens) == sum_behind(
            rest(tokens, advanced),
            product_tail(rest(tokens, advanced), expr),
        ).after(advanced),
        !(unary(tokens) is Tree) ==> sum(tokens) == unary(tokens),
{
    if let Parsed::Tree { expr, advanced } = unary(tokens) {
        let behind = product_tail(rest(tokens, advanced), expr);
        lemma_rest_rest(tokens, advanced, behind.moved());
    }
}

/// The parser reads the language of the grammar: at the lowest precedence a
/// sum, above the precedence of a sum a product, and above that of a
/// product an operand with its prefix operators. This holds of every token
/// sequence.
pub proof fn lemma_parser_reads_the_grammar(tokens: Seq<Token>)
    ensures
        parse(tokens, None) == sum(tokens),
        expression(tokens, None, Precedence::Lowest) == sum(tokens),
        expression(tokens, None, Precedence::Sum) == product(tokens),
        expression(tokens, None, Precedence::Product) == unary(tokens),
        expression(tokens, None, Precedence::Prefix) == unary(tokens),
        prefix(tokens, None) == unary(tokens),
    decreases tokens.len(), 1nat,
{
    if tokens.len() > 0 {
        lemma_parser_reads_the_grammar(rest(tokens, 1));
    }
    lemma_prefix_is_unary(tokens);
    lemma_expression_unfolds(tokens, Precedence::Lowest);
    lemma_expression_unfolds(tokens, Precedence::Sum);
    lemma_expression_unfolds(tokens, Precedence::Product);
    lemma_expression_unfolds(tokens, Precedence::Prefix);
    lemma_sum_unfolds(tokens);
    if let Parsed::Tree { expr, advanced } = unary(tokens) {
        lemma_climb_above(rest(tokens, advanced), expr, Precedence::Product);
        lemma_climb_above(rest(tokens, advanced), expr, Precedence::Prefix);
        lemma_climb_product(rest(tokens, advanced), expr);
        lemma_climb_sum(rest(tokens, advanced), expr);
    }
}

} // verus!
