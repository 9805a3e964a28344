//! A small calculator front end: a lexer, a precedence-climbing parser and
//! an evaluator for arithmetic expressions over non-negative integers.

pub mod calc;
pub mod codegen;
pub mod eval;
pub mod grammar;
pub mod language;
pub mod laws;
pub mod lexer;
pub mod parser;
pub mod text;
pub mod tokenizer;

use crate::text::chars_of;
use vstd::prelude::*;
use vstd::string::StrSliceExecFns;

verus! {

/// Whether `c` is a numeric character: what `char::is_numeric` returns for
/// it.
pub uninterp spec fn is_numeric(c: char) -> bool;

/// `char::is_numeric` tells whether a character belongs to one of the
/// Unicode categories of numbers. What it returns depends on the character
/// alone; this crate takes that result as the meaning of [`is_numeric`] and
/// claims nothing more of it.
pub assume_specification[ char::is_numeric ](c: char) -> (r: bool)
    ensures
        r == is_numeric(c),
;

/// The first offset at or after `pos` that holds no numeric character; the
/// length of the text if there is none.
pub open spec fn numeric_end(s: Seq<char>, pos: nat) -> nat
    decreases s.len() - pos,
{
    if pos < s.len() && is_numeric(s[pos as int]) {
        numeric_end(s, pos + 1)
    } else {
        pos
    }
}

/// `numeric_end` stops on the first character that is not numeric and
/// passes over numeric characters only.
pub proof fn lemma_numeric_end(s: Seq<char>, pos: nat)
    requires
        pos <= s.len(),
    ensures
        pos <= numeric_end(s, pos) <= s.len(),
        forall|i: int| pos <= i < numeric_end(s, pos) ==> is_numeric(#[trigger] s[i]),
        numeric_end(s, pos) < s.len() ==> !is_numeric(s[numeric_end(s, pos) as int]),
    decreases s.len() - pos,
{
    if pos < s.len() && is_numeric(s[pos as int]) {
        lemma_numeric_end(s, pos + 1);
    }
}

/// Splits `s` behind its leading numeric characters: the first part holds
/// them, the second part the rest of `s`.
pub fn split_digit(s: &str) -> (r: (&str, &str))
    ensures
        r.0@ == s@.subrange(0, numeric_end(s@, 0) as int),
        r.1@ == s@.subrange(numeric_end(s@, 0) as int, s@.len() as int),
{
    let chars = chars_of(s);
    let len = chars.len();
    let mut first_non_num: usize = 0;
    while first_non_num < len && chars[first_non_num].is_numeric()
        invariant
            first_non_num <= len == s@.len(),
            chars@ == s@,
            numeric_end(s@, 0) == numeric_end(s@, first_non_num as nat),
        decreases len - first_non_num,
    {
        first_non_num += 1;
    }
    (s.substring_char(0, first_non_num), s.substring_char(first_non_num, len))
}

} // verus!
