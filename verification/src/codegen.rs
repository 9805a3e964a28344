//! The flat backend: a first number and then a run of `+ number` and
//! `- number`, as instructions for a machine with one accumulator.

use crate::tokenizer::TokenType;
use vstd::prelude::*;

verus! {

/// An instruction on the accumulator.
#[derive(Debug, PartialEq, Eq, Clone, Copy)]
pub enum Instruction {
    /// Load the number.
    Mov(u64),
    /// Add the number.
    Add(u64),
    /// Subtract the number.
    Sub(u64),
    /// Return the accumulator.
    Ret,
}

/// Why a list of tokens is no program.
#[derive(Debug, PartialEq, Eq, Clone, Copy)]
pub enum CodegenError {
    /// A number should stand at `index`, and another token or none does.
    ExpectedNumber { index: usize },
    /// `+` or `-` should stand at `index`, and another token does.
    InvalidToken { index: usize },
}

/// `head` in front of the instructions of `tail`, if there are any.
pub open spec fn emit(head: Seq<Instruction>, tail: Result<Seq<Instruction>, CodegenError>)
    -> Result<Seq<Instruction>, CodegenError> {
    match tail {
        Ok(instructions) => Ok(head + instructions),
        Err(e) => Err(e),
    }
}

/// The instructions for the pairs of an operator and a number that start at
/// `index`, and the return behind them.
pub open spec fn terms(tokens: Seq<TokenType>, index: nat) -> Result<
    Seq<Instruction>,
    CodegenError,
>
    decreases tokens.len() - index,
{
    if index >= tokens.len() {
        Ok(seq![Instruction::Ret])
    } else {
        match tokens[index as int] {
            TokenType::Plus => match operand(tokens, index + 1) {
                Some(n) => emit(seq![Instruction::Add(n)], terms(tokens, index + 2)),
                None => Err(CodegenError::ExpectedNumber { index: (index + 1) as usize }),
            },
            TokenType::Minus => match operand(tokens, index + 1) {
                Some(n) => emit(seq![Instruction::Sub(n)], terms(tokens, index + 2)),
                None => Err(CodegenError::ExpectedNumber { index: (index + 1) as usize }),
            },
            _ => Err(CodegenError::InvalidToken { index: index as usize }),
        }
    }
}

/// The number at `index`, if a number stands there.
pub open spec fn operand(tokens: Seq<TokenType>, index: nat) -> Option<u64> {
    if index < tokens.len() {
        match tokens[index as int] {
            TokenType::Number(n) => Some(n),
            _ => None,
        }
    } else {
        None
    }
}

/// The program for a list of tokens: the first number is loaded, every
/// further number is added or subtracted, and the result is returned.
pub open spec fn program(tokens: Seq<TokenType>) -> Result<Seq<Instruction>, CodegenError> {
    match operand(tokens, 0) {
        Some(n) => emit(seq![Instruction::Mov(n)], terms(tokens, 1)),
        None => Err(CodegenError::ExpectedNumber { index: 0 }),
    }
}

/// The number at `index`, if a number stands there.
fn number_at(tokens: &Vec<TokenType>, index: usize) -> (r: Option<u64>)
    ensures
        r == operand(tokens@, index as nat),
{
    if index < tokens.len() {
        match tokens[index] {
            TokenType::Number(n) => Some(n),
            _ => None,
        }
    } else {
        None
    }
}

/// Translates a list of tokens into instructions.
pub fn compile(tokens: &Vec<TokenType>) -> (r: Result<Vec<Instruction>, CodegenError>)
    ensures
        match r {
            Ok(code) => program(tokens@) == Ok::<Seq<Instruction>, CodegenError>(code@),
            Err(e) => program(tokens@) == Err::<Seq<Instruction>, CodegenError>(e),
        },
{
    let mut code: Vec<Instruction> = Vec::new();
    match number_at(tokens, 0) {
        Some(n) => code.push(Instruction::Mov(n)),
        None => {
            return Err(CodegenError::ExpectedNumber { index: 0 });
        },
    }
    let mut i: usize = 1;
    while i < tokens.len()
        invariant
            1 <= i,
            program(tokens@) == emit(code@, terms(tokens@, i as nat)),
        decreases tokens.len() - i,
    {
        let ghost emitted = code@;
        let add = match tokens[i] {
            TokenType::Plus => true,
            TokenType::Minus => false,
            _ => {
                return Err(CodegenError::InvalidToken { index: i });
            },
        };
        i += 1;
        let n = match number_at(tokens, i) {
            Some(n) => n,
            None => {
                return Err(CodegenError::ExpectedNumber { index: i });
            },
        };
        let instruction = if add {
            Instruction::Add(n)
        } else {
            Instruction::Sub(n)
        };
        code.push(instruction);
        i += 1;
        proof {
            if let Ok(rest) = terms(tokens@, i as nat) {
                assert(emitted + (seq![instruction] + rest) =~= code@ + rest);
            }
        }
    }
    let ghost emitted = code@;
    code.push(Instruction::Ret);
    assert(emitted + seq![Instruction::Ret] =~= code@);
    Ok(code)
}

} // verus!
