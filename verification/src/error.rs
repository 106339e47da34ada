use vstd::prelude::*;

verus! {

/// Everything that can go wrong between reading an expression and printing
/// its value.  Each variant is terminal for the invocation that raised it.
#[derive(Debug, Clone, PartialEq, Eq)]
pub enum Error {
    /// Empty input, a non-digit leading character, a number literal with a
    /// second decimal point, or two numbers with no operator between them.
    InvalidExpression,
    /// A character outside the recognized token set; carries that character.
    UnrecognizedCharacter(char),
    /// A number literal failed to convert to a numeric value.
    NumericParseFailure,
    /// The token sequence, though lexically valid, holds no expression.
    ParseFailure,
    /// Interactive use supplied only a blank line.
    NoExpressionProvided,
}

} // verus!
