use vstd::prelude::*;
use crate::dec::{Dec, dec_wf};

verus! {

/// One lexical unit of an expression: a number, a binary operator, or a
/// grouping parenthesis.
#[derive(Clone, Copy, PartialEq, Eq, Structural, Debug)]
pub enum Token {
    Number(Dec),
    Add,
    Subtract,
    Multiply,
    Divide,
    Modulo,
    Power,
    LeftParen,
    RightParen,
}

/// Why an expression was rejected.
#[derive(Clone, Copy, PartialEq, Eq, Structural, Debug)]
pub enum Error {
    /// A numeric literal did not parse (for instance, two decimal points).
    InvalidNumber,
    /// A character outside the recognized alphabet, carried in the error.
    UnknownCharacter(char),
    /// A left parenthesis was never closed.
    UnmatchedParentheses,
    /// Operand underflow, or an empty result stack.
    InvalidExpression,
    /// A zero right-hand operand of division.
    DivisionByZero,
    /// A zero right-hand operand of the remainder operator.
    ModuloByZero,
    /// An operand or the power result was not representable.
    PowerConversionFailed,
    /// An exact arithmetic result fell outside the decimal range.
    Overflow,
}

/// Precedence rank of a token: higher binds tighter; parentheses and numbers
/// rank lowest and are never compared.
pub open spec fn spec_precedence(t: Token) -> u8 {
    match t {
        Token::Add | Token::Subtract => 1u8,
        Token::Multiply | Token::Divide | Token::Modulo => 2u8,
        Token::Power => 3u8,
        _ => 0u8,
    }
}

/// Every number carried by a token of `ts` is well-formed.
pub open spec fn nums_wf(ts: Seq<Token>) -> bool {
    forall|i: int|
        0 <= i < ts.len() ==> (#[trigger] ts[i] matches Token::Number(d) ==> dec_wf(d))
}

/// No token of `ts` is a parenthesis.
pub open spec fn no_parens(ts: Seq<Token>) -> bool {
    forall|i: int|
        0 <= i < ts.len() ==> #[trigger] ts[i] != Token::LeftParen && ts[i] != Token::RightParen
}

impl Token {
    /// Precedence rank of a binary operator; higher binds tighter.
    pub fn precedence(&self) -> (r: u8)
        ensures
            r == spec_precedence(*self),
    {
        match self {
            Token::Add | Token::Subtract => 1,
            Token::Multiply | Token::Divide | Token::Modulo => 2,
            Token::Power => 3,
            _ => 0,
        }
    }
}

} // verus!
