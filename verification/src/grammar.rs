//! The syntax tree, and what the parser makes of a token sequence.
//!
//! The functions of this module are the mathematical model of the parser.
//! They work on the tokens that are still to be read, the first of them
//! being the current token and the second the lookahead, and on the error,
//! if any, that stops the lexer behind the last of them. Each returns a
//! [`Parsed`]: a tree together with the number of tokens by which the parser
//! moved on, or one of two failures.

use crate::lexer::{LexError, Token};
use vstd::prelude::*;

verus! {

/// The operator of a prefix expression.
#[derive(Debug, PartialEq, Eq, Clone, Copy)]
pub enum PrefixOp {
    /// Negation.
    Minus,
}

/// The operator of an infix expression.
#[derive(Debug, PartialEq, Eq, Clone, Copy)]
pub enum InfixOp {
    /// Sum.
    Plus,
    /// Difference.
    Minus,
    /// Product.
    Times,
    /// Quotient.
    Divides,
}

/// An arithmetic expression. Every node owns its operands.
#[derive(Debug, PartialEq, Eq)]
#[allow(inconsistent_fields)]
pub enum Expr {
    /// A number literal.
    Number(u64),
    /// An operator in front of an expression, as in `-10` or `-(1 + 2)`.
    PrefixExpr { operator: PrefixOp, right: Box<Expr> },
    /// An operator between two expressions, as in `1 + 2` or `3 * (4 + 5)`.
    InfixExpr { left: Box<Expr>, operator: InfixOp, right: Box<Expr> },
}

/// How tightly an operator binds, in rising order. The parser compares
/// these values and nothing else.
#[derive(Debug, PartialEq, Eq, PartialOrd, Ord, Clone, Copy)]
pub enum Precedence {
    /// No operator, and every token that is none.
    Lowest,
    /// `+` and `-` between operands.
    Sum,
    /// `*` and `/`.
    Product,
    /// `-` in front of an operand.
    Prefix,
}

impl Precedence {
    /// The place in the order `Lowest < Sum < Product < Prefix`.
    pub open spec fn rank(self) -> nat {
        match self {
            Precedence::Lowest => 0,
            Precedence::Sum => 1,
            Precedence::Product => 2,
            Precedence::Prefix => 3,
        }
    }

    /// The place of this precedence in the order, as a number.
    pub fn level(&self) -> (r: u8)
        ensures
            r == self.rank(),
    {
        match self {
            Precedence::Lowest => 0,
            Precedence::Sum => 1,
            Precedence::Product => 2,
            Precedence::Prefix => 3,
        }
    }
}

/// The precedence of a token that stands between two operands.
pub open spec fn precedence_of(token: Token) -> Precedence {
    match token {
        Token::Plus | Token::Minus => Precedence::Sum,
        Token::Times | Token::Divides => Precedence::Product,
        _ => Precedence::Lowest,
    }
}

/// The infix operator that a token denotes, if it denotes one.
pub open spec fn infix_op(token: Token) -> Option<InfixOp> {
    match token {
        Token::Plus => Some(InfixOp::Plus),
        Token::Minus => Some(InfixOp::Minus),
        Token::Times => Some(InfixOp::Times),
        Token::Divides => Some(InfixOp::Divides),
        _ => None,
    }
}

/// Two tokens of the same variant; the value of a number does not count.
pub open spec fn same_kind(a: Token, b: Token) -> bool {
    match (a, b) {
        (Token::Number(_), Token::Number(_)) => true,
        (Token::Plus, Token::Plus) => true,
        (Token::Minus, Token::Minus) => true,
        (Token::Times, Token::Times) => true,
        (Token::Divides, Token::Divides) => true,
        (Token::LParen, Token::LParen) => true,
        (Token::RParen, Token::RParen) => true,
        _ => false,
    }
}

/// The current token: the first that is still to be read.
pub open spec fn first(tokens: Seq<Token>) -> Option<Token> {
    if tokens.len() > 0 {
        Some(tokens[0])
    } else {
        None
    }
}

/// The lookahead: the token behind the current one.
pub open spec fn second(tokens: Seq<Token>) -> Option<Token> {
    if tokens.len() > 1 {
        Some(tokens[1])
    } else {
        None
    }
}

/// What is still to be read once the parser has moved on by `n` tokens.
/// Behind the last token it stays where it is.
pub open spec fn rest(tokens: Seq<Token>, n: nat) -> Seq<Token> {
    if n <= tokens.len() {
        tokens.skip(n as int)
    } else {
        Seq::empty()
    }
}

/// Moving on by one token runs into the error that stops the lexer: the
/// parser holds the last two tokens, and the lexer cannot give a third.
pub open spec fn blocked(tokens: Seq<Token>, failure: Option<LexError>) -> bool {
    failure is Some && tokens.len() <= 2
}

/// The outcome of a parsing step, and the number of tokens by which the
/// parser has moved on when the step ends.
pub enum Parsed {
    /// A tree. The current token is the last token of the expression.
    Tree { expr: Expr, advanced: nat },
    /// The tokens are no expression: an operand or a closing parenthesis is
    /// missing, or a token stands where no expression can start. The parser
    /// stays where it found that out.
    Malformed { advanced: nat },
    /// The parser asked for a token where the text holds none. It stays on
    /// the last two tokens.
    Failed { error: LexError, advanced: nat },
}

impl Parsed {
    /// The same outcome after `n` more tokens have gone by before it.
    pub open spec fn after(self, n: nat) -> Parsed {
        match self {
            Parsed::Tree { expr, advanced } => Parsed::Tree { expr, advanced: advanced + n },
            Parsed::Malformed { advanced } => Parsed::Malformed { advanced: advanced + n },
            Parsed::Failed { error, advanced } => Parsed::Failed {
                error,
                advanced: advanced + n,
            },
        }
    }

    /// The value that a parsing method returns for this outcome.
    pub open spec fn result(self) -> Result<Option<Box<Expr>>, LexError> {
        match self {
            Parsed::Tree { expr, .. } => Ok(Some(Box::new(expr))),
            Parsed::Malformed { .. } => Ok(None),
            Parsed::Failed { error, .. } => Err(error),
        }
    }

    /// By how many tokens the parser has moved on.
    pub open spec fn moved(self) -> nat {
        match self {
            Parsed::Tree { advanced, .. } => advanced,
            Parsed::Malformed { advanced } => advanced,
            Parsed::Failed { advanced, .. } => advanced,
        }
    }
}

/// A number literal: the current token, which stays current.
pub open spec fn number(tokens: Seq<Token>) -> Parsed {
    match first(tokens) {
        Some(Token::Number(n)) => Parsed::Tree { expr: Expr::Number(n), advanced: 0 },
        _ => Parsed::Malformed { advanced: 0 },
    }
}

/// A negation: the parser leaves the current token behind and reads an
/// operand that binds as tightly as a prefix operator does.
pub open spec fn minus(tokens: Seq<Token>, failure: Option<LexError>) -> Parsed
    decreases tokens.len(), 0nat,
{
    if tokens.len() == 0 {
        Parsed::Malformed { advanced: 0 }
    } else if blocked(tokens, failure) {
        Parsed::Failed { error: failure->0, advanced: 0 }
    } else {
        match expression(rest(tokens, 1), failure, Precedence::Prefix).after(1) {
            Parsed::Tree { expr, advanced } => Parsed::Tree {
                expr: Expr::PrefixExpr { operator: PrefixOp::Minus, right: Box::new(expr) },
                advanced,
            },
            other => other,
        }
    }
}

/// A group: the parser leaves the current token behind, reads an expression
/// and asks for a closing parenthesis behind it, which becomes the current
/// token. The tree is that of the expression; the parentheses leave no
/// trace in it.
pub open spec fn grouped(tokens: Seq<Token>, failure: Option<LexError>) -> Parsed
    decreases tokens.len(), 0nat,
{
    if tokens.len() == 0 {
        Parsed::Malformed { advanced: 0 }
    } else if blocked(tokens, failure) {
        Parsed::Failed { error: failure->0, advanced: 0 }
    } else {
        match expression(rest(tokens, 1), failure, Precedence::Lowest).after(1) {
            Parsed::Tree { expr, advanced } => {
                if second(rest(tokens, advanced)) != Some(Token::RParen) {
                    Parsed::Malformed { advanced }
                } else if blocked(rest(tokens, advanced), failure) {
                    Parsed::Failed { error: failure->0, advanced }
                } else {
                    Parsed::Tree { expr, advanced: advanced + 1 }
                }
            },
            other => other,
        }
    }
}

/// An expression that starts with the current token: a negation, a number
/// or a group.
pub open spec fn prefix(tokens: Seq<Token>, failure: Option<LexError>) -> Parsed
    decreases tokens.len(), 1nat,
{
    match first(tokens) {
        Some(Token::Minus) => minus(tokens, failure),
        Some(Token::Number(_)) => number(tokens),
        Some(Token::LParen) => grouped(tokens, failure),
        _ => Parsed::Malformed { advanced: 0 },
    }
}

/// The infix expression whose operator is the current token and whose left
/// operand is `left`. The right operand takes in every operator that binds
/// more tightly than this one, and no other.
pub open spec fn infix_expression(
    tokens: Seq<Token>,
    failure: Option<LexError>,
    left: Expr,
) -> Parsed
    decreases tokens.len(), 0nat,
{
    match first(tokens) {
        Some(token) => match infix_op(token) {
            Some(operator) => if blocked(tokens, failure) {
                Parsed::Failed { error: failure->0, advanced: 0 }
            } else {
                match expression(rest(tokens, 1), failure, precedence_of(token)).after(1) {
                    Parsed::Tree { expr, advanced } => Parsed::Tree {
                        expr: Expr::InfixExpr {
                            left: Box::new(left),
                            operator,
                            right: Box::new(expr),
                        },
                        advanced,
                    },
                    other => other,
                }
            },
            None => Parsed::Malformed { advanced: 0 },
        },
        None => Parsed::Malformed { advanced: 0 },
    }
}

/// What follows the operand `left` when the current token comes behind it:
/// an infix expression if that token is an operator, and `left` itself if
/// it is another token.
pub open spec fn infix(tokens: Seq<Token>, failure: Option<LexError>, left: Expr) -> Parsed
    decreases tokens.len(), 1nat,
{
    match first(tokens) {
        Some(token) => if infix_op(token) is Some {
            infix_expression(tokens, failure, left)
        } else {
            Parsed::Tree { expr: left, advanced: 0 }
        },
        None => Parsed::Malformed { advanced: 0 },
    }
}

/// The lookahead is an operator that binds more tightly than `min`.
pub open spec fn binds_tighter(tokens: Seq<Token>, min: Precedence) -> bool {
    match second(tokens) {
        Some(token) => min.rank() < precedence_of(token).rank(),
        None => false,
    }
}

/// The expression that grows out of the operand `left`, which ends at the
/// current token: as long as the lookahead binds more tightly than `min`,
/// it becomes the operator of an infix expression whose left operand is
/// all that was read so far. Operators of one precedence thus group to the
/// left.
pub open spec fn climb(
    tokens: Seq<Token>,
    failure: Option<LexError>,
    left: Expr,
    min: Precedence,
) -> Parsed
    decreases tokens.len(), 1nat,
{
    if !binds_tighter(tokens, min) {
        Parsed::Tree { expr: left, advanced: 0 }
    } else if blocked(tokens, failure) {
        Parsed::Failed { error: failure->0, advanced: 0 }
    } else {
        match infix(rest(tokens, 1), failure, left).after(1) {
            Parsed::Tree { expr, advanced } => climb(rest(tokens, advanced), failure, expr, min).after(
                advanced,
            ),
            other => other,
        }
    }
}

/// An expression whose infix operators all bind more tightly than `min`.
pub open spec fn expression(tokens: Seq<Token>, failure: Option<LexError>, min: Precedence) -> Parsed
    decreases tokens.len(), 2nat,
{
    match prefix(tokens, failure) {
        Parsed::Tree { expr, advanced } => climb(rest(tokens, advanced), failure, expr, min).after(
            advanced,
        ),
        other => other,
    }
}

/// What a parser makes of the tokens of a lexer: it takes the first two
/// tokens, which fails if an error stops the lexer before its second token,
/// and then reads an expression of the lowest precedence.
pub open spec fn parse(tokens: Seq<Token>, failure: Option<LexError>) -> Parsed {
    if failure is Some && tokens.len() < 2 {
        Parsed::Failed { error: failure->0, advanced: 0 }
    } else {
        expression(tokens, failure, Precedence::Lowest)
    }
}

/// Moving on by `a` tokens and then by `b` is moving on by `a + b`.
pub proof fn lemma_rest_rest(tokens: Seq<Token>, a: nat, b: nat)
    ensures
        rest(rest(tokens, a), b) == rest(tokens, a + b),
        rest(tokens, 0) == tokens,
        rest(tokens, a).len() <= tokens.len(),
{
    assert(rest(rest(tokens, a), b) =~= rest(tokens, a + b));
    assert(rest(tokens, 0) =~= tokens);
}

} // verus!
