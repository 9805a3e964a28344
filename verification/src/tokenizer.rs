//! The flat tokenizer: a text as one list of tokens, for a reader that
//! knows no precedence and no grouping.
//!
//! It reads the tokens that the lexer reads, and accepts of them the
//! numbers, `+` and `-`.

use crate::lexer::{lemma_scan_moves_on, scan, LexError, Lexer, Scan, Token};
use crate::text::chars_of;
use vstd::prelude::*;

verus! {

/// The kinds of token, each number with its value.
#[derive(Debug, PartialEq, Eq, Clone, Copy)]
pub enum TokenType {
    /// `[0-9][0-9]*`
    Number(u64),
    /// `+`
    Plus,
    /// `-`
    Minus,
    /// `*`
    Times,
    /// `/`
    Divides,
    /// `(`
    LParen,
    /// `)`
    RParen,
}

/// The flat token for a token of the lexer, if the flat tokenizer accepts
/// it.
pub open spec fn flat(token: Token) -> Option<TokenType> {
    match token {
        Token::Number(n) => Some(TokenType::Number(n)),
        Token::Plus => Some(TokenType::Plus),
        Token::Minus => Some(TokenType::Minus),
        _ => None,
    }
}

/// `head` in front of the tokens of `tail`, if there are any.
pub open spec fn prepend(head: Seq<TokenType>, tail: Result<Seq<TokenType>, LexError>) -> Result<
    Seq<TokenType>,
    LexError,
> {
    match tail {
        Ok(tokens) => Ok(head + tokens),
        Err(e) => Err(e),
    }
}

/// The flat tokens of the text from offset `pos` on. The first character
/// that starts no number and is neither whitespace, `+` nor `-` is an
/// error, and so is a number above `u64::MAX`.
pub open spec fn flat_tokens(s: Seq<char>, pos: nat) -> Result<Seq<TokenType>, LexError>
    decreases s.len() - pos,
    via flat_tokens_decreases
{
    match scan(s, pos) {
        Scan::Token { token, next } => match flat(token) {
            Some(t) => prepend(seq![t], flat_tokens(s, next)),
            None => Err(
                LexError::UnexpectedChar { ch: s[next - 1], position: (next - 1) as usize },
            ),
        },
        Scan::End => Ok(Seq::empty()),
        Scan::Error { error } => Err(error),
    }
}

#[via_fn]
proof fn flat_tokens_decreases(s: Seq<char>, pos: nat) {
    if pos <= s.len() {
        lemma_scan_moves_on(s, pos);
    }
}

/// The flat tokens of `p`, or the first error in it.
pub fn tokenize(p: String) -> (r: Result<Vec<TokenType>, LexError>)
    ensures
        match r {
            Ok(tokens) => flat_tokens(p@, 0) == Ok::<Seq<TokenType>, LexError>(tokens@),
            Err(e) => flat_tokens(p@, 0) == Err::<Seq<TokenType>, LexError>(e),
        },
{
    let mut tokens: Vec<TokenType> = Vec::new();
    let mut lexer = Lexer::new(chars_of(p.as_str()));
    assert(prepend(tokens@, flat_tokens(p@, 0)) == flat_tokens(p@, 0)) by {
        if let Ok(rest) = flat_tokens(p@, 0) {
            assert(tokens@ + rest =~= rest);
        }
    }
    loop
        invariant
            lexer.wf(),
            lexer.text() == p@,
            flat_tokens(p@, 0) == prepend(tokens@, flat_tokens(p@, lexer.cursor())),
        decreases p@.len() - lexer.cursor(),
    {
        let ghost before = lexer.cursor();
        let ghost seen = tokens@;
        proof {
            lemma_scan_moves_on(p@, before);
        }
        let token = match lexer.token() {
            Ok(Some(token)) => token,
            Ok(None) => {
                assert(tokens@ + Seq::<TokenType>::empty() =~= tokens@);
                return Ok(tokens);
            },
            Err(e) => {
                return Err(e);
            },
        };
        let accepted = match token {
            Token::Number(n) => TokenType::Number(n),
            Token::Plus => TokenType::Plus,
            Token::Minus => TokenType::Minus,
            Token::Times => {
                return Err(LexError::UnexpectedChar { ch: '*', position: lexer.position() - 1 });
            },
            Token::Divides => {
                return Err(LexError::UnexpectedChar { ch: '/', position: lexer.position() - 1 });
            },
            Token::LParen => {
                return Err(LexError::UnexpectedChar { ch: '(', position: lexer.position() - 1 });
            },
            Token::RParen => {
                return Err(LexError::UnexpectedChar { ch: ')', position: lexer.position() - 1 });
            },
        };
        tokens.push(accepted);
        proof {
            if let Ok(rest) = flat_tokens(p@, lexer.cursor()) {
                assert(seen + (seq![accepted] + rest) =~= tokens@ + rest);
            }
        }
    }
}

} // verus!
