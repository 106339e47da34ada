use vstd::prelude::*;

verus! {

/// A lexical token.  A number carries the text of its literal: the digits
/// and the optional decimal point, exactly as they stood in the input.
#[derive(Debug, Clone, PartialEq)]
pub enum Token {
    Add,
    Sub,
    Mul,
    Div,
    Number(Vec<char>),
    Eof,
}

/// The mathematical form of a token: a number literal is a sequence of
/// characters.
pub enum SpecToken {
    Add,
    Sub,
    Mul,
    Div,
    Number(Seq<char>),
    Eof,
}

impl View for Token {
    type V = SpecToken;

    open spec fn view(&self) -> SpecToken {
        match self {
            Token::Add => SpecToken::Add,
            Token::Sub => SpecToken::Sub,
            Token::Mul => SpecToken::Mul,
            Token::Div => SpecToken::Div,
            Token::Number(lit) => SpecToken::Number(lit@),
            Token::Eof => SpecToken::Eof,
        }
    }
}

impl DeepView for Token {
    type V = SpecToken;

    open spec fn deep_view(&self) -> SpecToken {
        self.view()
    }
}

/// The decimal digits, `'0'` through `'9'`.
pub open spec fn is_digit(c: char) -> bool {
    48 <= c as u32 && c as u32 <= 57
}

/// Decides `is_digit`.
pub fn digit_char(c: char) -> (b: bool)
    ensures
        b == is_digit(c),
{
    let u = c as u32;
    48 <= u && u <= 57
}

/// Decides whether `c` can extend a number literal: a digit or a decimal
/// point.
pub fn digit_or_dot(c: char) -> (b: bool)
    ensures
        b == (is_digit(c) || c == '.'),
{
    digit_char(c) || c == '.'
}

} // verus!
