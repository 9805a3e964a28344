//! What holds of the lexer, the parser and the evaluator on every text.

use crate::calc::calculation;
use crate::grammar::parse;
use crate::lexer::{
    decimal, digits_end, failure_from, is_digit, is_space, is_supported, lemma_digits_end,
    lemma_lexer_stops, lemma_skip_spaces, scan, skip_spaces, tokens_from, LexError, Scan,
    Token,
};
use vstd::prelude::*;

verus! {

/// `skip_spaces` goes as far as the whitespace goes.
pub proof fn lemma_skip_spaces_to(s: Seq<char>, pos: nat, stop: nat)
    requires
        pos <= stop <= s.len(),
        forall|i: int| pos <= i < stop ==> is_space(#[trigger] s[i]),
        stop < s.len() ==> !is_space(s[stop as int]),
    ensures
        skip_spaces(s, pos) == stop,
    decreases stop - pos,
{
    if pos < stop {
        lemma_skip_spaces_to(s, pos + 1, stop);
    }
}

/// `digits_end` goes as far as the digits go.
pub proof fn lemma_digits_end_at(s: Seq<char>, pos: nat, stop: nat)
    requires
        pos <= stop <= s.len(),
        forall|i: int| pos <= i < stop ==> is_digit(#[trigger] s[i]),
        stop < s.len() ==> !is_digit(s[stop as int]),
    ensures
        digits_end(s, pos) == stop,
    decreases stop - pos,
{
    if pos < stop {
        lemma_digits_end_at(s, pos + 1, stop);
    }
}

/// A text that holds nothing but one run of digits, with or without
/// whitespace around it, is exactly one token: the number that the digits
/// denote, provided that it fits in a `u64`. The lexer hands it out and
/// then reports the end of the text.
pub proof fn lemma_digits_are_one_number(s: Seq<char>, start: nat, end: nat)
    requires
        start < end <= s.len(),
        forall|i: int| 0 <= i < start ==> is_space(#[trigger] s[i]),
        forall|i: int| start <= i < end ==> is_digit(#[trigger] s[i]),
        forall|i: int| end <= i < s.len() ==> is_space(#[trigger] s[i]),
        decimal(s.subrange(start as int, end as int)) <= u64::MAX,
    ensures
        scan(s, 0) == (Scan::Token {
            token: Token::Number(decimal(s.subrange(start as int, end as int)) as u64),
            next: end,
        }),
        scan(s, end) == Scan::End,
        tokens_from(s, 0) == seq![
            Token::Number(decimal(s.subrange(start as int, end as int)) as u64),
        ],
        failure_from(s, 0) is None,
{
    assert(is_digit(s[start as int]));
    lemma_skip_spaces_to(s, 0, start);
    lemma_digits_end_at(s, start, end);
    lemma_skip_spaces_to(s, end, s.len());
    lemma_lexer_stops(s, 0);
    lemma_lexer_stops(s, end);
    assert(tokens_from(s, 0) =~= seq![
        Token::Number(decimal(s.subrange(start as int, end as int)) as u64),
    ]);
}

/// The token stream of a text that holds an unsupported character ends in
/// an error. The error names the first such character and its offset,
/// unless a number that is too large stands before it: then the error names
/// the offset of that number.
pub proof fn lemma_unsupported_char_is_reported(s: Seq<char>, at: nat)
    requires
        at < s.len() <= usize::MAX,
        !is_supported(s[at as int]),
        forall|i: int| 0 <= i < at ==> is_supported(#[trigger] s[i]),
    ensures
        failure_from(s, 0) matches Some(error) && match error {
            LexError::UnexpectedChar { ch, position } => ch == s[at as int] && position == at,
            LexError::NumberTooLarge { position } => position < at,
        },
{
    lemma_unsupported_from(s, 0, at);
}

/// The same, for the lexer at any offset up to the unsupported character.
pub proof fn lemma_unsupported_from(s: Seq<char>, pos: nat, at: nat)
    requires
        pos <= at < s.len() <= usize::MAX,
        !is_supported(s[at as int]),
        forall|i: int| pos <= i < at ==> is_supported(#[trigger] s[i]),
    ensures
        failure_from(s, pos) matches Some(error) && match error {
            LexError::UnexpectedChar { ch, position } => ch == s[at as int] && position == at,
            LexError::NumberTooLarge { position } => pos <= position < at,
        },
    decreases at - pos,
{
    lemma_skip_spaces(s, pos);
    lemma_lexer_stops(s, pos);
    let start = skip_spaces(s, pos);
    if start < at {
        assert(is_supported(s[start as int]));
        lemma_digits_end(s, start);
        match scan(s, pos) {
            Scan::Token { next, .. } => {
                lemma_unsupported_from(s, next, at);
            },
            _ => {},
        }
    }
}

/// Parsing is a function of the text alone: two texts that agree character
/// by character have the same tokens, the same tree and the same value.
pub proof fn lemma_same_text_same_result(a: Seq<char>, b: Seq<char>)
    requires
        a.len() == b.len(),
        forall|i: int| 0 <= i < a.len() ==> a[i] == b[i],
    ensures
        tokens_from(a, 0) == tokens_from(b, 0),
        failure_from(a, 0) == failure_from(b, 0),
        parse(tokens_from(a, 0), failure_from(a, 0)) == parse(
            tokens_from(b, 0),
            failure_from(b, 0),
        ),
        calculation(a) == calculation(b),
{
    assert(a =~= b);
}

} // verus!
