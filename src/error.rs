use vstd::prelude::*;

verus! {

/// Every way in which reading or evaluating an expression can fail.
#[derive(Clone, Copy, Debug, PartialEq, Eq, Structural)]
pub enum CalcError {
    /// A numeric literal that ends with `.` or cannot be read as a number.
    InvalidNumber,
    /// An identifier other than `sqrt`.
    UnknownFunction,
    /// A character that starts no token.
    InvalidCharacter,
    /// The text holds no numeric literal at all.
    NoOperand,
    /// A token that cannot continue a sum.
    UnexpectedToken,
    /// A divisor (of `/` or `%`) that is exactly zero.
    DivideByZero,
    /// The argument of `sqrt` is negative.
    NegativeSqrt,
    /// The input ended where `)` was needed.
    UnclosedParenthesis,
    /// Another token stood where `)` was needed.
    ExpectedCloseParen,
    /// `sqrt` is not followed by `(`.
    ExpectedOpenParen,
    /// A `)` stood where an operand was needed.
    UnmatchedCloseParen,
    /// The input ended where an operand was needed.
    UnexpectedEnd,
    /// An operator stood where an operand was needed.
    ExpectedFactorToken,
    /// A complete expression is followed by more tokens.
    TrailingTokens,
    /// Parentheses, signs or powers are nested too deeply.
    NestingTooDeep,
}

/// The description of each kind of error.
pub open spec fn message_text(e: CalcError) -> Seq<char> {
    match e {
        CalcError::InvalidNumber => "Invalid number"@,
        CalcError::UnknownFunction => "Unknown function"@,
        CalcError::InvalidCharacter => "Invalid character in expression"@,
        CalcError::NoOperand => "Expression must contain at least one number"@,
        CalcError::UnexpectedToken => "Unexpected token in expression"@,
        CalcError::DivideByZero => "Cannot divide by ZERO"@,
        CalcError::NegativeSqrt => "Cannot take square root of negative number"@,
        CalcError::UnclosedParenthesis => "Unclosed parenthesis: expected ')'"@,
        CalcError::ExpectedCloseParen => "Expected ')' after expression"@,
        CalcError::ExpectedOpenParen => "Expected '(' after sqrt"@,
        CalcError::UnmatchedCloseParen => "Unexpected ')' - no matching '('"@,
        CalcError::UnexpectedEnd => "Unexpected end of expression"@,
        CalcError::ExpectedFactorToken => "Expected number, '-', '+', 'sqrt', or '('"@,
        CalcError::TrailingTokens => "Unexpected token after expression"@,
        CalcError::NestingTooDeep => "Expression is nested too deeply"@,
    }
}

impl CalcError {
    /// A short human-readable description.
    pub fn message(&self) -> (r: &'static str)
        ensures
            r@ == message_text(*self),
    {
        match self {
            CalcError::InvalidNumber => "Invalid number",
            CalcError::UnknownFunction => "Unknown function",
            CalcError::InvalidCharacter => "Invalid character in expression",
            CalcError::NoOperand => "Expression must contain at least one number",
            CalcError::UnexpectedToken => "Unexpected token in expression",
            CalcError::DivideByZero => "Cannot divide by ZERO",
            CalcError::NegativeSqrt => "Cannot take square root of negative number",
            CalcError::UnclosedParenthesis => "Unclosed parenthesis: expected ')'",
            CalcError::ExpectedCloseParen => "Expected ')' after expression",
            CalcError::ExpectedOpenParen => "Expected '(' after sqrt",
            CalcError::UnmatchedCloseParen => "Unexpected ')' - no matching '('",
            CalcError::UnexpectedEnd => "Unexpected end of expression",
            CalcError::ExpectedFactorToken => "Expected number, '-', '+', 'sqrt', or '('",
            CalcError::TrailingTokens => "Unexpected token after expression",
            CalcError::NestingTooDeep => "Expression is nested too deeply",
        }
    }
}

} // verus!
