//! Lexical tokens of the expression language, operator precedence, and the
//! error taxonomy shared by the tokenizer, the parser and the evaluator.

use vstd::prelude::*;

verus! {

/// One of the four arithmetic operators.
#[derive(Debug, Copy, Clone, PartialEq, Eq)]
pub enum Op {
    Plus,
    Minus,
    Multiply,
    Divide,
}

/// A lexical token: an operator, a number, or a parenthesis.
#[derive(Debug, Copy, Clone, PartialEq, Eq)]
pub enum Token {
    Op(Op),
    Num(isize),
    LParen,
    RParen,
}

/// Precedence rank of an operator: addition and subtraction bind with rank 1,
/// multiplication and division with rank 2. A higher rank binds tighter.
pub open spec fn spec_precedence(op: Op) -> u8 {
    match op {
        Op::Plus => 1,
        Op::Minus => 1,
        Op::Multiply => 2,
        Op::Divide => 2,
    }
}

impl Op {
    /// Precedence rank of this operator.
    pub fn presedence(self) -> (r: u8)
        ensures
            r == spec_precedence(self),
    {
        match self {
            Self::Plus => 1,
            Self::Minus => 1,
            Self::Multiply => 2,
            Self::Divide => 2,
        }
    }
}

/// A failure of the tokenizer: a character that starts no token, or a digit
/// run whose value does not fit in `isize`.
#[derive(Debug, Copy, Clone, PartialEq, Eq)]
pub enum LexError {
    /// `ch`, at character index `pos`, is not whitespace, a digit, an
    /// operator, or a parenthesis.
    InvalidChar { ch: char, pos: usize },
    /// The digit run starting at character index `pos` exceeds `isize::MAX`.
    Overflow { pos: usize },
}

/// A failure while applying an operator during evaluation.
#[derive(Debug, Copy, Clone, PartialEq, Eq)]
pub enum ArithmeticError {
    /// The right operand of a division is zero.
    DivisionByZero,
    /// The mathematical result does not fit in `isize`.
    Overflow,
}

/// Everything that can go wrong between raw input and final result.
#[derive(Debug, Copy, Clone, PartialEq, Eq)]
pub enum EvalError {
    /// The tokenizer rejected the input.
    Lex(LexError),
    /// Applying an operator failed.
    Arithmetic(ArithmeticError),
    /// Unbalanced parentheses, or too few operands for an operator, or no
    /// result left on the operand stack.
    MalformedExpression,
    /// A parenthesis reached the evaluator; the parser never emits one.
    InternalInvariant,
}

} // verus!
