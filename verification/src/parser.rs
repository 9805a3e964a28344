//! The parser: precedence climbing over a lexer, with one token of
//! lookahead.
//!
//! Each parsing method is proved to return what the function of the same
//! role in [`crate::grammar`] gives for the tokens that the parser has
//! still to read.

use crate::grammar::{
    binds_tighter, blocked, climb, expression, grouped, infix, infix_expression,
    lemma_rest_rest, minus, number, precedence_of, prefix, rest, same_kind, second, Expr,
    InfixOp, Parsed, Precedence, PrefixOp,
};
use crate::lexer::{failure_from, lemma_lexer_stops, scan, tokens_from, LexError, Lexer, Token};
use vstd::prelude::*;

verus! {

/// The tokens that an optional token stands for: one or none.
spec fn slot(token: Option<Token>) -> Seq<Token> {
    match token {
        Some(t) => seq![t],
        None => Seq::empty(),
    }
}

/// A parser over the tokens of a lexer. It holds the current token and the
/// token behind it, and takes a new one from the lexer with every step.
pub struct Parser {
    lexer: Lexer,
    curr: Option<Token>,
    peek: Option<Token>,
}

impl Parser {
    /// The tokens that are still to be read: the current one, the lookahead,
    /// and those that the lexer has not handed out yet.
    pub closed spec fn tokens(&self) -> Seq<Token> {
        slot(self.curr) + slot(self.peek) + tokens_from(self.lexer.text(), self.lexer.cursor())
    }

    /// The error that stops the lexer behind the last of `tokens()`, if the
    /// text holds one.
    pub closed spec fn failure(&self) -> Option<LexError> {
        failure_from(self.lexer.text(), self.lexer.cursor())
    }

    /// The text that the lexer reads.
    pub closed spec fn text(&self) -> Seq<char> {
        self.lexer.text()
    }

    /// The two slots are filled from the front, and an empty lookahead means
    /// that the lexer has reached the end of the text.
    pub closed spec fn wf(&self) -> bool {
        &&& self.lexer.wf()
        &&& self.curr is None ==> self.peek is None
        &&& self.peek is None ==> scan(self.lexer.text(), self.lexer.cursor()) is End
    }

    /// A parser that has read the first two tokens of what `lexer` has
    /// still to give.
    ///
    /// Fails if the lexer cannot give them: if an error stops it before its
    /// second token.
    pub fn new(lexer: Lexer) -> (r: Result<Parser, LexError>)
        requires
            lexer.wf(),
        ensures
            r is Err <==> failure_from(lexer.text(), lexer.cursor()) is Some && tokens_from(
                lexer.text(),
                lexer.cursor(),
            ).len() < 2,
            r matches Err(e) ==> failure_from(lexer.text(), lexer.cursor()) == Some(e),
            r matches Ok(p) ==> {
                &&& p.wf()
                &&& p.text() == lexer.text()
                &&& p.tokens() == tokens_from(lexer.text(), lexer.cursor())
                &&& p.failure() == failure_from(lexer.text(), lexer.cursor())
            },
    {
        let mut lexer = lexer;
        let ghost text = lexer.text();
        let ghost start = lexer.cursor();
        proof {
            lemma_lexer_stops(text, start);
        }
        let curr = lexer.token()?;
        let ghost middle = lexer.cursor();
        proof {
            lemma_lexer_stops(text, middle);
        }
        let peek = lexer.token()?;
        proof {
            lemma_lexer_stops(text, lexer.cursor());
            assert(slot(curr) + slot(peek) + tokens_from(text, lexer.cursor()) =~= tokens_from(
                text,
                start,
            ));
        }
        Ok(Parser { lexer, curr, peek })
    }

    /// The tree of the expression that the tokens start with; `None` if
    /// they start with none. Tokens behind the expression are not looked
    /// at, but for the first of them.
    pub fn parse(&mut self) -> (r: Result<Option<Box<Expr>>, LexError>)
        requires
            old(self).wf(),
        ensures
            final(self).wf(),
            final(self).text() == old(self).text(),
            final(self).failure() == old(self).failure(),
            r == expression(old(self).tokens(), old(self).failure(), Precedence::Lowest).result(),
            final(self).tokens() == rest(
                old(self).tokens(),
                expression(old(self).tokens(), old(self).failure(), Precedence::Lowest).moved(),
            ),
    {
        self.parse_expression(Precedence::Lowest)
    }

    /// The tree of the expression that starts with the current token and
    /// whose infix operators all bind more tightly than `precedence`.
    pub fn parse_expression(&mut self, precedence: Precedence) -> (r: Result<
        Option<Box<Expr>>,
        LexError,
    >)
        requires
            old(self).wf(),
        ensures
            final(self).wf(),
            final(self).text() == old(self).text(),
            final(self).failure() == old(self).failure(),
            r == expression(old(self).tokens(), old(self).failure(), precedence).result(),
            final(self).tokens() == rest(
                old(self).tokens(),
                expression(old(self).tokens(), old(self).failure(), precedence).moved(),
            ),
        decreases old(self).tokens().len(), 2nat,
    {
        let ghost tokens = self.tokens();
        let ghost failure = self.failure();
        let mut left = match self.parse_prefix()? {
            Some(expr) => expr,
            None => {
                return Ok(None);
            },
        };
        let ghost mut moved: nat = prefix(tokens, failure).moved();
        while self.peek.is_some() && precedence.level() < self.peek_precedence().level()
            invariant
                self.wf(),
                self.text() == old(self).text(),
                self.failure() == failure,
                self.tokens() == rest(tokens, moved),
                tokens == old(self).tokens(),
                failure == old(self).failure(),
                expression(tokens, failure, precedence) == climb(
                    rest(tokens, moved),
                    failure,
                    *left,
                    precedence,
                ).after(moved),
            decreases self.tokens().len(),
        {
            let ghost here = self.tokens();
            let ghost operand = *left;
            let ghost step = infix(rest(here, 1), failure, operand).after(1);
            proof {
                assert(binds_tighter(here, precedence));
                lemma_rest_rest(here, 1, (step.moved() - 1) as nat);
                lemma_rest_rest(tokens, moved, step.moved());
            }
            self.next()?;
            left = match self.parse_infix(left)? {
                Some(expr) => expr,
                None => {
                    return Ok(None);
                },
            };
            proof {
                assert(step == Parsed::Tree { expr: *left, advanced: step.moved() });
                assert(climb(here, failure, operand, precedence) == climb(
                    rest(here, step.moved()),
                    failure,
                    *left,
                    precedence,
                ).after(step.moved()));
                moved = moved + step.moved();
            }
        }
        Ok(Some(left))
    }

    /// The tree of the expression that starts with the current token: a
    /// negation, a number or a group. `None` if the current token starts no
    /// expression or if there is none.
    pub fn parse_prefix(&mut self) -> (r: Result<Option<Box<Expr>>, LexError>)
        requires
            old(self).wf(),
        ensures
            final(self).wf(),
            final(self).text() == old(self).text(),
            final(self).failure() == old(self).failure(),
            r == prefix(old(self).tokens(), old(self).failure()).result(),
            final(self).tokens() == rest(
                old(self).tokens(),
                prefix(old(self).tokens(), old(self).failure()).moved(),
            ),
        decreases old(self).tokens().len(), 1nat,
    {
        match self.curr {
            Some(Token::Minus) => self.parse_minus(),
            Some(Token::Number(_)) => self.parse_number(),
            Some(Token::LParen) => self.parse_grouped_expression(),
            _ => Ok(None),
        }
    }

    /// Leaves the current token behind and reads the operand of a negation.
    pub fn parse_minus(&mut self) -> (r: Result<Option<Box<Expr>>, LexError>)
        requires
            old(self).wf(),
        ensures
            final(self).wf(),
            final(self).text() == old(self).text(),
            final(self).failure() == old(self).failure(),
            r == minus(old(self).tokens(), old(self).failure()).result(),
            final(self).tokens() == rest(
                old(self).tokens(),
                minus(old(self).tokens(), old(self).failure()).moved(),
            ),
        decreases old(self).tokens().len(), 0nat,
    {
        if self.curr.is_none() {
            return Ok(None);
        }
        self.next()?;
        let number = match self.parse_expression(Precedence::Prefix)? {
            Some(expr) => expr,
            None => {
                return Ok(None);
            },
        };
        proof {
            lemma_rest_rest(
                old(self).tokens(),
                1,
                expression(
                    rest(old(self).tokens(), 1),
                    old(self).failure(),
                    Precedence::Prefix,
                ).moved(),
            );
        }
        Ok(Some(Box::new(Expr::PrefixExpr { operator: PrefixOp::Minus, right: number })))
    }

    /// The leaf for the current token, if that is a number. The parser does
    /// not move.
    pub fn parse_number(&mut self) -> (r: Result<Option<Box<Expr>>, LexError>)
        requires
            old(self).wf(),
        ensures
            final(self).wf(),
            final(self).text() == old(self).text(),
            final(self).failure() == old(self).failure(),
            final(self).tokens() == old(self).tokens(),
            r == number(old(self).tokens()).result(),
    {
        match self.curr {
            Some(Token::Number(n)) => Ok(Some(Box::new(Expr::Number(n)))),
            _ => Ok(None),
        }
    }

    /// Leaves the current token behind, reads an expression and then a
    /// closing parenthesis.
    pub fn parse_grouped_expression(&mut self) -> (r: Result<Option<Box<Expr>>, LexError>)
        requires
            old(self).wf(),
        ensures
            final(self).wf(),
            final(self).text() == old(self).text(),
            final(self).failure() == old(self).failure(),
            r == grouped(old(self).tokens(), old(self).failure()).result(),
            final(self).tokens() == rest(
                old(self).tokens(),
                grouped(old(self).tokens(), old(self).failure()).moved(),
            ),
        decreases old(self).tokens().len(), 0nat,
    {
        if self.curr.is_none() {
            return Ok(None);
        }
        self.next()?;
        let group = match self.parse_expression(Precedence::Lowest)? {
            Some(expr) => expr,
            None => {
                return Ok(None);
            },
        };
        let ghost inner = expression(
            rest(old(self).tokens(), 1),
            old(self).failure(),
            Precedence::Lowest,
        ).moved();
        proof {
            lemma_rest_rest(old(self).tokens(), 1, inner);
            lemma_rest_rest(old(self).tokens(), inner + 1, 1);
        }
        if self.is_peek(&Token::RParen) {
            self.next()?;
            Ok(Some(group))
        } else {
            Ok(None)
        }
    }

    /// What follows the operand `left` when the current token comes behind
    /// it: an infix expression if that token is an operator, `left` itself
    /// if it is another token, and `None` if there is no current token.
    pub fn parse_infix(&mut self, left: Box<Expr>) -> (r: Result<Option<Box<Expr>>, LexError>)
        requires
            old(self).wf(),
        ensures
            final(self).wf(),
            final(self).text() == old(self).text(),
            final(self).failure() == old(self).failure(),
            r == infix(old(self).tokens(), old(self).failure(), *left).result(),
            final(self).tokens() == rest(
                old(self).tokens(),
                infix(old(self).tokens(), old(self).failure(), *left).moved(),
            ),
        decreases old(self).tokens().len(), 1nat,
    {
        match self.curr {
            Some(Token::Plus) | Some(Token::Minus) | Some(Token::Times) | Some(Token::Divides) => {
                self.parse_infix_expression(left)
            },
            Some(_) => {
                proof {
                    lemma_rest_rest(self.tokens(), 0, 0);
                }
                Ok(Some(left))
            },
            None => Ok(None),
        }
    }

    /// The infix expression whose operator is the current token and whose
    /// left operand is `left`; `None` if the current token is no operator or
    /// if no operand follows it.
    pub fn parse_infix_expression(&mut self, left: Box<Expr>) -> (r: Result<
        Option<Box<Expr>>,
        LexError,
    >)
        requires
            old(self).wf(),
        ensures
            final(self).wf(),
            final(self).text() == old(self).text(),
            final(self).failure() == old(self).failure(),
            r == infix_expression(old(self).tokens(), old(self).failure(), *left).result(),
            final(self).tokens() == rest(
                old(self).tokens(),
                infix_expression(old(self).tokens(), old(self).failure(), *left).moved(),
            ),
        decreases old(self).tokens().len(), 0nat,
    {
        let token = match self.curr {
            Some(token) => token,
            None => {
                return Ok(None);
            },
        };
        let operator = match token {
            Token::Plus => InfixOp::Plus,
            Token::Minus => InfixOp::Minus,
            Token::Times => InfixOp::Times,
            Token::Divides => InfixOp::Divides,
            _ => {
                return Ok(None);
            },
        };
        let precedence = Self::token_precedence(&token);
        self.next()?;
        let right = match self.parse_expression(precedence)? {
            Some(expr) => expr,
            None => {
                return Ok(None);
            },
        };
        proof {
            lemma_rest_rest(
                old(self).tokens(),
                1,
                expression(rest(old(self).tokens(), 1), old(self).failure(), precedence).moved(),
            );
        }
        Ok(Some(Box::new(Expr::InfixExpr { left, operator, right })))
    }

    /// Moves on by one token: the lookahead becomes the current token, and
    /// the next token of the lexer becomes the lookahead.
    ///
    /// Fails, and leaves the parser as it is, if the lexer meets an error
    /// where that token should start.
    pub fn next(&mut self) -> (r: Result<(), LexError>)
        requires
            old(self).wf(),
        ensures
            final(self).wf(),
            final(self).text() == old(self).text(),
            final(self).failure() == old(self).failure(),
            r is Err <==> blocked(old(self).tokens(), old(self).failure()),
            r matches Err(e) ==> old(self).failure() == Some(e) && final(self).tokens() == old(
                self,
            ).tokens(),
            r is Ok ==> final(self).tokens() == rest(old(self).tokens(), 1),
    {
        proof {
            lemma_lexer_stops(self.lexer.text(), self.lexer.cursor());
        }
        let ghost before = self.tokens();
        let token = self.lexer.token()?;
        self.curr = self.peek;
        self.peek = token;
        proof {
            lemma_lexer_stops(self.lexer.text(), self.lexer.cursor());
            assert(self.tokens() =~= rest(before, 1));
        }
        Ok(())
    }

    /// Whether the lookahead is a token of the same variant as `token`.
    pub fn is_peek(&self, token: &Token) -> (r: bool)
        requires
            self.wf(),
        ensures
            r == match second(self.tokens()) {
                Some(t) => same_kind(t, *token),
                None => false,
            },
    {
        match self.peek {
            None => false,
            Some(peek) => match (peek, *token) {
                (Token::Number(_), Token::Number(_)) => true,
                (Token::Plus, Token::Plus) => true,
                (Token::Minus, Token::Minus) => true,
                (Token::Times, Token::Times) => true,
                (Token::Divides, Token::Divides) => true,
                (Token::LParen, Token::LParen) => true,
                (Token::RParen, Token::RParen) => true,
                _ => false,
            },
        }
    }

    /// The precedence of the lookahead; the lowest if there is none.
    pub fn peek_precedence(&self) -> (r: Precedence)
        requires
            self.wf(),
        ensures
            r == match second(self.tokens()) {
                Some(t) => precedence_of(t),
                None => Precedence::Lowest,
            },
    {
        match &self.peek {
            None => Precedence::Lowest,
            Some(token) => Self::token_precedence(token),
        }
    }

    /// The precedence of `token` as an infix operator.
    pub fn token_precedence(token: &Token) -> (r: Precedence)
        ensures
            r == precedence_of(*token),
    {
        match token {
            Token::Plus | Token::Minus => Precedence::Sum,
            Token::Times | Token::Divides => Precedence::Product,
            _ => Precedence::Lowest,
        }
    }
}

} // verus!
