//! Tokens of the language, and the error taxonomy.
//!
//! Errors come in two tiers: `Fatal` faults raised inside the lexer or the
//! expression evaluator (malformed token, non-numeric operand, division by
//! zero), and recoverable statement-shape diagnostics reported by the
//! statement dispatcher (see the interpreter module).

use vstd::prelude::*;
use crate::rational::{Rat, Rational};

verus! {

/// A fault raised inside the lexer or the expression evaluator. The
/// interpreter stops at once and hands the fault to its caller; no verified
/// function panics.
#[derive(Clone, Copy, Debug, PartialEq, Eq, Structural)]
pub enum Fatal {
    /// A character that starts no token.
    UnexpectedChar,
    /// A word starting with `p` that is neither `print` nor `printcal`.
    UnknownKeyword,
    /// An operator not followed by a number.
    ExpectedNumber,
    /// A token inside an expression that is neither an operator nor the end
    /// of the input.
    UnexpectedToken,
    /// A divisor that is exactly zero.
    DivisionByZero,
    /// An exact value too large for the bounded number representation.
    Overflow,
}

/// One of the four arithmetic operators.
#[derive(Clone, Copy, Debug, PartialEq, Eq, Structural)]
pub enum Op {
    Add,
    Sub,
    Mul,
    Div,
}

/// An executable token.
#[derive(Clone, Debug, PartialEq)]
pub enum Token {
    /// A decimal literal, as its exact rational value.
    Number(Rational),
    Plus,
    Minus,
    Multiply,
    Divide,
    /// The `print` keyword.
    Print,
    /// The `printcal` keyword.
    PrintCal,
    /// A quoted literal, without the quotes.
    Text(String),
    EndOfInput,
}

/// A token at the specification level.
pub ghost enum Tok {
    Number(Rat),
    Plus,
    Minus,
    Multiply,
    Divide,
    Print,
    PrintCal,
    Text(Seq<char>),
    EndOfInput,
}

impl View for Token {
    type V = Tok;

    open spec fn view(&self) -> Tok {
        match self {
            Token::Number(r) => Tok::Number(r@),
            Token::Plus => Tok::Plus,
            Token::Minus => Tok::Minus,
            Token::Multiply => Tok::Multiply,
            Token::Divide => Tok::Divide,
            Token::Print => Tok::Print,
            Token::PrintCal => Tok::PrintCal,
            Token::Text(s) => Tok::Text(s@),
            Token::EndOfInput => Tok::EndOfInput,
        }
    }
}

/// The operator denoted by an operator token, if any.
pub open spec fn tok_op(t: Tok) -> Option<Op> {
    match t {
        Tok::Plus => Some(Op::Add),
        Tok::Minus => Some(Op::Sub),
        Tok::Multiply => Some(Op::Mul),
        Tok::Divide => Some(Op::Div),
        _ => None,
    }
}

} // verus!
