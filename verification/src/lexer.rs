//! Turning a line of text into tokens, one token per request.
//!
//! The model of the lexer is a handful of functions on `Seq<char>`:
//! [`skip_spaces`] and [`digits_end`] say where a run of characters stops,
//! [`decimal`] gives a digit run its value, and [`scan`] puts them together
//! into the token that starts at a given offset. [`Lexer::token`] is proved
//! to compute exactly `scan`.

use vstd::prelude::*;

verus! {

/// A lexical unit: a number literal or one of the six one-character symbols.
#[derive(Debug, PartialEq, Eq, Clone, Copy)]
pub enum Token {
    /// `[0-9][0-9]*`
    Number(u64),
    /// `+`
    Plus,
    /// `-`
    Minus,
    /// `*`
    Times,
    /// `/`
    Divides,
    /// `(`
    LParen,
    /// `)`
    RParen,
}

/// Why the text at some offset is not a token.
#[derive(Debug, PartialEq, Eq, Clone, Copy)]
pub enum LexError {
    /// The character `ch` at offset `position` starts no token.
    UnexpectedChar { ch: char, position: usize },
    /// The digit run that starts at offset `position` does not fit in a `u64`.
    NumberTooLarge { position: usize },
}

/// The characters that separate tokens: those with the Unicode property
/// `White_Space`.
pub open spec fn is_space(c: char) -> bool {
    ||| c == ' '
    ||| '\u{9}' <= c <= '\u{d}'
    ||| c == '\u{85}'
    ||| c == '\u{a0}'
    ||| c == '\u{1680}'
    ||| '\u{2000}' <= c <= '\u{200a}'
    ||| c == '\u{2028}'
    ||| c == '\u{2029}'
    ||| c == '\u{202f}'
    ||| c == '\u{205f}'
    ||| c == '\u{3000}'
}

/// The ten ASCII digits.
pub open spec fn is_digit(c: char) -> bool {
    '0' <= c <= '9'
}

/// The value of a digit, `0` to `9`.
pub open spec fn digit_value(c: char) -> nat
    recommends
        is_digit(c),
{
    (c as int - '0' as int) as nat
}

/// The token that a one-character symbol stands for.
pub open spec fn symbol(c: char) -> Option<Token> {
    if c == '+' {
        Some(Token::Plus)
    } else if c == '-' {
        Some(Token::Minus)
    } else if c == '*' {
        Some(Token::Times)
    } else if c == '/' {
        Some(Token::Divides)
    } else if c == '(' {
        Some(Token::LParen)
    } else if c == ')' {
        Some(Token::RParen)
    } else {
        None
    }
}

/// A character that can stand in a text the lexer accepts.
pub open spec fn is_supported(c: char) -> bool {
    is_space(c) || is_digit(c) || symbol(c) is Some
}

/// The first offset at or after `pos` that holds no whitespace; the length
/// of the text if there is none.
pub open spec fn skip_spaces(s: Seq<char>, pos: nat) -> nat
    decreases s.len() - pos,
{
    if pos < s.len() && is_space(s[pos as int]) {
        skip_spaces(s, pos + 1)
    } else {
        pos
    }
}

/// The first offset at or after `pos` that holds no digit; the length of
/// the text if there is none.
pub open spec fn digits_end(s: Seq<char>, pos: nat) -> nat
    decreases s.len() - pos,
{
    if pos < s.len() && is_digit(s[pos as int]) {
        digits_end(s, pos + 1)
    } else {
        pos
    }
}

/// The number that a run of digits denotes in base ten.
pub open spec fn decimal(digits: Seq<char>) -> nat
    decreases digits.len(),
{
    if digits.len() == 0 {
        0
    } else {
        decimal(digits.drop_last()) * 10 + digit_value(digits.last())
    }
}

/// What the lexer finds when asked for a token.
pub enum Scan {
    /// A token, and the offset just behind it.
    Token { token: Token, next: nat },
    /// Nothing but whitespace is left.
    End,
    /// The text at the next non-blank offset is no token.
    Error { error: LexError },
}

/// The token that starts at the first non-blank offset at or after `pos`.
///
/// A digit starts a number, which takes in every digit that follows
/// directly; a symbol is a token by itself; anything else is an error, and
/// so is a number above `u64::MAX`.
pub open spec fn scan(s: Seq<char>, pos: nat) -> Scan {
    let start = skip_spaces(s, pos);
    if start >= s.len() {
        Scan::End
    } else if is_digit(s[start as int]) {
        let end = digits_end(s, start);
        let value = decimal(s.subrange(start as int, end as int));
        if value <= u64::MAX {
            Scan::Token { token: Token::Number(value as u64), next: end }
        } else {
            Scan::Error { error: LexError::NumberTooLarge { position: start as usize } }
        }
    } else {
        match symbol(s[start as int]) {
            Some(token) => Scan::Token { token, next: start + 1 },
            None => Scan::Error {
                error: LexError::UnexpectedChar { ch: s[start as int], position: start as usize },
            },
        }
    }
}

/// What [`Lexer::token`] returns on the text `s` with the cursor at `pos`.
pub open spec fn next_token(s: Seq<char>, pos: nat) -> Result<Option<Token>, LexError> {
    match scan(s, pos) {
        Scan::Token { token, .. } => Ok(Some(token)),
        Scan::End => Ok(None),
        Scan::Error { error } => Err(error),
    }
}

/// Where [`Lexer::token`] leaves the cursor: behind the token, at the end
/// of the text, or on the offset that the error names.
pub open spec fn next_cursor(s: Seq<char>, pos: nat) -> nat {
    match scan(s, pos) {
        Scan::Token { next, .. } => next,
        Scan::End => s.len(),
        Scan::Error { .. } => skip_spaces(s, pos),
    }
}

/// `skip_spaces` stops on the first non-blank offset and passes over
/// whitespace only.
pub proof fn lemma_skip_spaces(s: Seq<char>, pos: nat)
    requires
        pos <= s.len(),
    ensures
        pos <= skip_spaces(s, pos) <= s.len(),
        forall|i: int| pos <= i < skip_spaces(s, pos) ==> is_space(#[trigger] s[i]),
        skip_spaces(s, pos) < s.len() ==> !is_space(s[skip_spaces(s, pos) as int]),
        skip_spaces(s, skip_spaces(s, pos)) == skip_spaces(s, pos),
    decreases s.len() - pos,
{
    if pos < s.len() && is_space(s[pos as int]) {
        lemma_skip_spaces(s, pos + 1);
    }
}

/// `digits_end` stops on the first offset without a digit and passes over
/// digits only.
pub proof fn lemma_digits_end(s: Seq<char>, pos: nat)
    requires
        pos <= s.len(),
    ensures
        pos <= digits_end(s, pos) <= s.len(),
        forall|i: int| pos <= i < digits_end(s, pos) ==> is_digit(#[trigger] s[i]),
        digits_end(s, pos) < s.len() ==> !is_digit(s[digits_end(s, pos) as int]),
        pos < s.len() && is_digit(s[pos as int]) ==> pos < digits_end(s, pos),
    decreases s.len() - pos,
{
    if pos < s.len() && is_digit(s[pos as int]) {
        lemma_digits_end(s, pos + 1);
    }
}

/// A digit run is worth at least as much as each of its prefixes.
pub proof fn lemma_decimal_prefix(s: Seq<char>, start: int, mid: int, end: int)
    requires
        0 <= start <= mid <= end <= s.len(),
    ensures
        decimal(s.subrange(start, mid)) <= decimal(s.subrange(start, end)),
    decreases end - mid,
{
    if mid < end {
        lemma_decimal_prefix(s, start, mid, end - 1);
        assert(s.subrange(start, end).drop_last() =~= s.subrange(start, end - 1));
        assert(decimal(s.subrange(start, end)) >= decimal(s.subrange(start, end - 1))) by (nonlinear_arith)
            requires
                decimal(s.subrange(start, end)) == decimal(s.subrange(start, end - 1)) * 10
                    + digit_value(s.subrange(start, end).last()),
        ;
    }
}

/// A token always ends behind the offset at which the lexer was asked.
pub proof fn lemma_scan_moves_on(s: Seq<char>, pos: nat)
    requires
        pos <= s.len(),
    ensures
        pos <= next_cursor(s, pos) <= s.len(),
        scan(s, pos) is Token ==> pos < next_cursor(s, pos),
{
    lemma_skip_spaces(s, pos);
    lemma_digits_end(s, skip_spaces(s, pos));
}

/// The tokens that the lexer hands out from offset `pos` on, up to the end
/// of the text or to the first error.
pub open spec fn tokens_from(s: Seq<char>, pos: nat) -> Seq<Token>
    decreases s.len() - pos,
    via tokens_from_decreases
{
    match scan(s, pos) {
        Scan::Token { token, next } => seq![token] + tokens_from(s, next),
        _ => Seq::empty(),
    }
}

#[via_fn]
proof fn tokens_from_decreases(s: Seq<char>, pos: nat) {
    if pos <= s.len() {
        lemma_scan_moves_on(s, pos);
    }
}

/// The error that stops the lexer after it has handed out
/// `tokens_from(s, pos)`; `None` if it reaches the end of the text.
pub open spec fn failure_from(s: Seq<char>, pos: nat) -> Option<LexError>
    decreases s.len() - pos,
    via failure_from_decreases
{
    match scan(s, pos) {
        Scan::Token { next, .. } => failure_from(s, next),
        Scan::End => None,
        Scan::Error { error } => Some(error),
    }
}

#[via_fn]
proof fn failure_from_decreases(s: Seq<char>, pos: nat) {
    if pos <= s.len() {
        lemma_scan_moves_on(s, pos);
    }
}

/// Where the lexer stops, it stays: at the end of the text and at an error
/// it hands out no further token, and the outcome of asking again is the
/// same.
pub proof fn lemma_lexer_stops(s: Seq<char>, pos: nat)
    requires
        pos <= s.len(),
    ensures
        scan(s, pos) is End ==> scan(s, s.len()) is End && tokens_from(s, pos).len() == 0
            && failure_from(s, pos) is None,
        scan(s, pos) is Error ==> scan(s, skip_spaces(s, pos)) == scan(s, pos) && tokens_from(
            s,
            pos,
        ).len() == 0 && failure_from(s, pos) == Some(scan(s, pos)->error),
        scan(s, pos) matches Scan::Token { token, next } ==> tokens_from(s, pos) == seq![token]
            + tokens_from(s, next) && failure_from(s, pos) == failure_from(s, next),
{
    lemma_skip_spaces(s, pos);
    lemma_skip_spaces(s, s.len() as nat);
}

/// Whether `c` separates tokens.
pub fn is_whitespace(c: char) -> (r: bool)
    ensures
        r == is_space(c),
{
    c == ' ' || (c >= '\u{9}' && c <= '\u{d}') || c == '\u{85}' || c == '\u{a0}' || c == '\u{1680}'
        || (c >= '\u{2000}' && c <= '\u{200a}') || c == '\u{2028}' || c == '\u{2029}' || c
        == '\u{202f}' || c == '\u{205f}' || c == '\u{3000}'
}

/// The value of the digit `c`.
pub fn digit_of(c: char) -> (r: u64)
    requires
        is_digit(c),
    ensures
        r == digit_value(c),
        r <= 9,
{
    let code: u32 = c as u32;
    let zero: u32 = '0' as u32;
    (code - zero) as u64
}

/// A cursor over a line of text that hands out its tokens one by one.
pub struct Lexer {
    input: Vec<char>,
    position: usize,
}

impl Lexer {
    /// The text that the lexer reads.
    pub closed spec fn text(&self) -> Seq<char> {
        self.input@
    }

    /// The offset of the character that the lexer looks at.
    pub closed spec fn cursor(&self) -> nat {
        self.position as nat
    }

    /// The cursor lies within the text or just behind it.
    pub open spec fn wf(&self) -> bool {
        self.cursor() <= self.text().len()
    }

    /// A lexer at the start of `input`.
    pub fn new(input: Vec<char>) -> (r: Lexer)
        ensures
            r.wf(),
            r.text() == input@,
            r.cursor() == 0,
    {
        Lexer { input, position: 0 }
    }

    /// The offset of the character that the lexer looks at.
    pub fn position(&self) -> (r: usize)
        ensures
            r == self.cursor(),
    {
        self.position
    }

    /// The next token of the text, `None` when only whitespace is left.
    ///
    /// The cursor moves behind the token. On an error it stops at the
    /// offending offset, so that every later call reports the same error;
    /// at the end of the text every later call returns `None`.
    pub fn token(&mut self) -> (r: Result<Option<Token>, LexError>)
        requires
            old(self).wf(),
        ensures
            final(self).wf(),
            final(self).text() == old(self).text(),
            r == next_token(old(self).text(), old(self).cursor()),
            final(self).cursor() == next_cursor(old(self).text(), old(self).cursor()),
    {
        while self.curr().is_some() && is_whitespace(*self.curr().unwrap())
            invariant
                self.wf(),
                self.input@ == old(self).input@,
                old(self).position <= self.position,
                skip_spaces(self.input@, self.position as nat) == skip_spaces(
                    self.input@,
                    old(self).position as nat,
                ),
            decreases self.input.len() - self.position,
        {
            self.next();
        }
        let curr = match self.curr() {
            Some(c) => *c,
            None => {
                return Ok(None);
            },
        };
        let start = self.position;
        let token = if Self::is_number(&curr) {
            let mut value = digit_of(curr);
            proof {
                let digits = self.input@.subrange(start as int, start + 1);
                assert(digits.drop_last() =~= Seq::<char>::empty());
                assert(decimal(digits.drop_last()) == 0);
                lemma_digits_end(self.input@, start as nat);
            }
            while self.peek().is_some() && Self::is_number(self.peek().unwrap())
                invariant
                    self.wf(),
                    self.input@ == old(self).input@,
                    start <= self.position < self.input.len(),
                    skip_spaces(self.input@, old(self).position as nat) == start,
                    is_digit(self.input@[start as int]),
                    value == decimal(self.input@.subrange(start as int, self.position + 1)),
                    digits_end(self.input@, start as nat) == digits_end(
                        self.input@,
                        (self.position + 1) as nat,
                    ),
                decreases self.input.len() - self.position,
            {
                self.next();
                let digit = digit_of(*self.curr().unwrap());
                proof {
                    let end = digits_end(self.input@, start as nat);
                    let run = self.input@.subrange(start as int, self.position + 1);
                    assert(run.drop_last() =~= self.input@.subrange(
                        start as int,
                        self.position as int,
                    ));
                    assert(decimal(run) == value * 10 + digit);
                    lemma_digits_end(self.input@, (self.position + 1) as nat);
                    lemma_decimal_prefix(
                        self.input@,
                        start as int,
                        self.position + 1,
                        end as int,
                    );
                }
                let scaled = match value.checked_mul(10) {
                    Some(v) => v,
                    None => {
                        self.position = start;
                        return Err(LexError::NumberTooLarge { position: start });
                    },
                };
                value = match scaled.checked_add(digit) {
                    Some(v) => v,
                    None => {
                        self.position = start;
                        return Err(LexError::NumberTooLarge { position: start });
                    },
                };
            }
            Token::Number(value)
        } else {
            match curr {
                '+' => Token::Plus,
                '-' => Token::Minus,
                '*' => Token::Times,
                '/' => Token::Divides,
                '(' => Token::LParen,
                ')' => Token::RParen,
                _ => {
                    return Err(LexError::UnexpectedChar { ch: curr, position: start });
                },
            }
        };
        self.next();
        Ok(Some(token))
    }

    /// Moves the cursor one character on; at the end of the text it stays.
    pub fn next(&mut self)
        requires
            old(self).wf(),
        ensures
            final(self).wf(),
            final(self).text() == old(self).text(),
            final(self).cursor() == if old(self).cursor() < old(self).text().len() {
                old(self).cursor() + 1
            } else {
                old(self).cursor()
            },
    {
        if self.position < self.input.len() {
            self.position += 1;
        }
    }

    /// The character under the cursor, if the text has not ended.
    pub fn curr(&self) -> (r: Option<&char>)
        requires
            self.wf(),
        ensures
            r == if self.cursor() < self.text().len() {
                Some(&self.text()[self.cursor() as int])
            } else {
                None
            },
    {
        if self.position < self.input.len() {
            Some(&self.input[self.position])
        } else {
            None
        }
    }

    /// The character behind the one under the cursor, if there is one.
    pub fn peek(&self) -> (r: Option<&char>)
        requires
            self.wf(),
        ensures
            r == if self.cursor() + 1 < self.text().len() {
                Some(&self.text()[self.cursor() + 1 as int])
            } else {
                None
            },
    {
        if self.position < self.input.len() && self.position + 1 < self.input.len() {
            Some(&self.input[self.position + 1])
        } else {
            None
        }
    }

    /// Whether `c` can stand in a number literal.
    pub fn is_number(c: &char) -> (r: bool)
        ensures
            r == is_digit(*c),
    {
        *c >= '0' && *c <= '9'
    }
}

} // verus!
