use vstd::prelude::*;

verus! {

/// Errors of the stand-alone scanner of expressions.
#[derive(Debug, Clone, PartialEq)]
pub enum LexError {
    UnterminatedString(usize),
    UnexpectedCharacter(usize, char),
    UnexpectedToken(usize, String),
    UnexpectedEOF(usize),
}

/// Errors of the stand-alone evaluator of expressions, each with a description
/// of the offending operands or operator.
#[derive(Debug, Clone, PartialEq)]
pub enum ParseError {
    InvalidOperands(String),
    UnsupportedOperator(String),
    InvalidOperand(String),
}

} // verus!
