use vstd::prelude::*;

use crate::error::Error;
use crate::token::{digit_char, digit_or_dot, is_digit, SpecToken, Token};

verus! {

/// Where the number literal that is being scanned at `j` ends.  `seen_dot`
/// says whether a decimal point was already consumed.  A digit or a first
/// decimal point extends the literal; a second decimal point is malformed;
/// any other character (or the end of the input) ends the literal.
pub open spec fn literal_end(s: Seq<char>, j: int, seen_dot: bool) -> Result<int, Error>
    decreases s.len() - j,
{
    if j >= s.len() {
        Ok(j)
    } else if is_digit(s[j]) {
        literal_end(s, j + 1, seen_dot)
    } else if s[j] == '.' {
        if seen_dot {
            Err(Error::InvalidExpression)
        } else {
            literal_end(s, j + 1, true)
        }
    } else {
        Ok(j)
    }
}

/// A literal's end lies between where the scan started and the end of the
/// input.
pub proof fn lemma_literal_end_bounds(s: Seq<char>, j: int, seen_dot: bool)
    requires
        j <= s.len(),
    ensures
        literal_end(s, j, seen_dot) matches Ok(e) ==> j <= e <= s.len(),
    decreases s.len() - j,
{
    if j < s.len() {
        if is_digit(s[j]) {
            lemma_literal_end_bounds(s, j + 1, seen_dot);
        } else if s[j] == '.' && !seen_dot {
            lemma_literal_end_bounds(s, j + 1, true);
        }
    }
}

/// A number literal as the tokenizer emits it: nonempty, opened by a
/// digit, each character a digit or a decimal point, and at most one
/// decimal point in all.
pub open spec fn wellformed_literal(lit: Seq<char>) -> bool {
    &&& lit.len() > 0
    &&& is_digit(lit[0])
    &&& forall|k: int| 0 <= k < lit.len() ==> is_digit(lit[k]) || lit[k] == '.'
    &&& forall|k1: int, k2: int|
        0 <= k1 < lit.len() && 0 <= k2 < lit.len() && lit[k1] == '.' && lit[k2] == '.' ==> k1
            == k2
}

/// What the characters of a literal region look like: digits and dots
/// only, no dot at all where one was already seen, and at most one dot
/// where none was.
pub proof fn lemma_literal_end_chars(s: Seq<char>, j: int, seen_dot: bool, e: int)
    requires
        0 <= j <= s.len(),
        literal_end(s, j, seen_dot) == Ok::<_, Error>(e),
    ensures
        j <= e <= s.len(),
        forall|k: int| j <= k < e ==> is_digit(s[k]) || s[k] == '.',
        seen_dot ==> forall|k: int| j <= k < e ==> is_digit(s[k]),
        !seen_dot ==> forall|k1: int, k2: int|
            j <= k1 < e && j <= k2 < e && s[k1] == '.' && s[k2] == '.' ==> k1 == k2,
    decreases s.len() - j,
{
    if j < s.len() {
        if is_digit(s[j]) {
            lemma_literal_end_chars(s, j + 1, seen_dot, e);
        } else if s[j] == '.' && !seen_dot {
            lemma_literal_end_chars(s, j + 1, true, e);
        }
    }
}

/// The token that a single operator character denotes, if any.
pub open spec fn op_token(c: char) -> Option<SpecToken> {
    if c == '-' {
        Some(SpecToken::Sub)
    } else if c == '+' {
        Some(SpecToken::Add)
    } else if c == 'x' {
        Some(SpecToken::Mul)
    } else if c == '/' {
        Some(SpecToken::Div)
    } else {
        None
    }
}

/// The tokens of `s` from position `i` on: a single left-to-right scan.
/// Operators and number literals become tokens, spaces and newlines are
/// skipped, anything else is refused.
pub open spec fn spec_scan(s: Seq<char>, i: int) -> Result<Seq<SpecToken>, Error>
    decreases s.len() - i,
    via spec_scan_decreases
{
    if i >= s.len() {
        Ok(Seq::empty())
    } else if op_token(s[i]) is Some {
        match spec_scan(s, i + 1) {
            Ok(rest) => Ok(seq![op_token(s[i])->Some_0] + rest),
            Err(e) => Err(e),
        }
    } else if is_digit(s[i]) {
        match literal_end(s, i + 1, false) {
            Ok(end) => match spec_scan(s, end) {
                Ok(rest) => Ok(seq![SpecToken::Number(s.subrange(i, end))] + rest),
                Err(e) => Err(e),
            },
            Err(e) => Err(e),
        }
    } else if s[i] == ' ' || s[i] == '\n' {
        spec_scan(s, i + 1)
    } else {
        Err(Error::UnrecognizedCharacter(s[i]))
    }
}

#[via_fn]
proof fn spec_scan_decreases(s: Seq<char>, i: int) {
    if i < s.len() && op_token(s[i]) is None && is_digit(s[i]) {
        lemma_literal_end_bounds(s, i + 1, false);
    }
}

/// What tokenizing all of `s` yields: the input must open with a digit, and
/// a successful scan is closed by an end-of-input token.
pub open spec fn spec_tokenize(s: Seq<char>) -> Result<Seq<SpecToken>, Error> {
    if s.len() == 0 {
        Err(Error::InvalidExpression)
    } else if !is_digit(s[0]) {
        Err(Error::InvalidExpression)
    } else {
        match spec_scan(s, 0) {
            Ok(toks) => Ok(toks.push(SpecToken::Eof)),
            Err(e) => Err(e),
        }
    }
}

/// Converts a character sequence into its tokens, or says why it cannot.
#[verifier::loop_isolation(false)]
pub fn tokenize(src: &Vec<char>) -> (r: Result<Vec<Token>, Error>)
    ensures
        match r {
            Ok(tokens) => spec_tokenize(src@) == Ok::<_, Error>(tokens.deep_view()),
            Err(e) => spec_tokenize(src@) == Err::<Seq<SpecToken>, _>(e),
        },
{
    if src.len() == 0 {
        return Err(Error::InvalidExpression);
    }
    if !digit_char(src[0]) {
        return Err(Error::InvalidExpression);
    }

    let mut tokens: Vec<Token> = Vec::new();
    let mut i: usize = 0;
    proof {
        if let Ok(rest) = spec_scan(src@, 0) {
            assert(tokens.deep_view() + rest =~= rest);
        }
    }
    while i < src.len()
        invariant
            i <= src.len(),
            src@.len() > 0,
            is_digit(src@[0]),
            match spec_scan(src@, i as int) {
                Ok(rest) => spec_scan(src@, 0) == Ok::<_, Error>(tokens.deep_view() + rest),
                Err(e) => spec_scan(src@, 0) == Err::<Seq<SpecToken>, _>(e),
            },
        decreases src@.len() - i,
    {
        let c = src[i];
        let ghost pre = tokens.deep_view();
        if c == '-' {
            tokens.push(Token::Sub);
            proof {
                assert(pre + seq![SpecToken::Sub] =~= tokens.deep_view());
                lemma_scan_step_token(src@, i as int, pre, SpecToken::Sub);
            }
            i = i + 1;
        } else if c == '+' {
            tokens.push(Token::Add);
            proof {
                assert(pre + seq![SpecToken::Add] =~= tokens.deep_view());
                lemma_scan_step_token(src@, i as int, pre, SpecToken::Add);
            }
            i = i + 1;
        } else if c == 'x' {
            tokens.push(Token::Mul);
            proof {
                assert(pre + seq![SpecToken::Mul] =~= tokens.deep_view());
                lemma_scan_step_token(src@, i as int, pre, SpecToken::Mul);
            }
            i = i + 1;
        } else if c == '/' {
            tokens.push(Token::Div);
            proof {
                assert(pre + seq![SpecToken::Div] =~= tokens.deep_view());
                lemma_scan_step_token(src@, i as int, pre, SpecToken::Div);
            }
            i = i + 1;
        } else if digit_char(c) {
            let ghost start = i as int;
            let mut lit: Vec<char> = Vec::new();
            lit.push(c);
            let mut seen_dot: bool = false;
            let mut j: usize = i + 1;
            proof {
                assert(lit@ =~= src@.subrange(start, j as int));
            }
            while j < src.len() && digit_or_dot(src[j])
                invariant
                    0 <= start < j <= src.len(),
                    literal_end(src@, start + 1, false) == literal_end(src@, j as int, seen_dot),
                    lit@ =~= src@.subrange(start, j as int),
                decreases src@.len() - j,
            {
                let k = src[j];
                if digit_char(k) {
                    let ghost old_lit = lit@;
                    lit.push(k);
                    proof {
                        assert(src@.subrange(start, j + 1) =~= src@.subrange(
                            start,
                            j as int,
                        ).push(src@[j as int]));
                        assert(lit@ =~= old_lit.push(k));
                        assert(lit@ =~= src@.subrange(start, j + 1));
                    }
                    j = j + 1;
                } else if k == '.' {
                    if seen_dot {
                        proof {
                            assert(literal_end(src@, j as int, true) == Err::<int, _>(
                                Error::InvalidExpression,
                            ));
                        }
                        return Err(Error::InvalidExpression);
                    }
                    seen_dot = true;
                    let ghost old_lit = lit@;
                    lit.push(k);
                    proof {
                        assert(src@.subrange(start, j + 1) =~= src@.subrange(
                            start,
                            j as int,
                        ).push(src@[j as int]));
                        assert(lit@ =~= old_lit.push(k));
                        assert(lit@ =~= src@.subrange(start, j + 1));
                    }
                    j = j + 1;
                }
            }
            proof {
                assert(literal_end(src@, start + 1, false) == Ok::<_, Error>(j as int));
            }
            tokens.push(Token::Number(lit));
            proof {
                assert(pre + seq![SpecToken::Number(src@.subrange(start, j as int))]
                    =~= tokens.deep_view());
                lemma_scan_step_number(src@, start, j as int, pre);
            }
            i = j;
        } else if c == ' ' || c == '\n' {
            i = i + 1;
        } else {
            proof {
                assert(spec_scan(src@, i as int) == Err::<Seq<SpecToken>, _>(
                    Error::UnrecognizedCharacter(c),
                ));
            }
            return Err(Error::UnrecognizedCharacter(c));
        }
    }
    proof {
        assert(spec_scan(src@, i as int) == Ok::<_, Error>(Seq::<SpecToken>::empty()));
        assert(tokens.deep_view() + Seq::<SpecToken>::empty() =~= tokens.deep_view());
    }
    let ghost before_eof = tokens.deep_view();
    tokens.push(Token::Eof);
    proof {
        assert(tokens.deep_view() =~= before_eof.push(SpecToken::Eof));
    }
    Ok(tokens)
}

/// One scan step over an operator character: the accumulated tokens grow by
/// that operator's token.
proof fn lemma_scan_step_token(s: Seq<char>, i: int, acc: Seq<SpecToken>, t: SpecToken)
    requires
        0 <= i < s.len(),
        op_token(s[i]) == Some(t),
        match spec_scan(s, i) {
            Ok(rest) => spec_scan(s, 0) == Ok::<_, Error>(acc + rest),
            Err(e) => spec_scan(s, 0) == Err::<Seq<SpecToken>, _>(e),
        },
    ensures
        match spec_scan(s, i + 1) {
            Ok(rest) => spec_scan(s, 0) == Ok::<_, Error>((acc + seq![t]) + rest),
            Err(e) => spec_scan(s, 0) == Err::<Seq<SpecToken>, _>(e),
        },
{
    match spec_scan(s, i + 1) {
        Ok(rest) => {
            assert(spec_scan(s, i) == Ok::<_, Error>(seq![t] + rest));
            assert(acc + (seq![t] + rest) =~= (acc + seq![t]) + rest);
        },
        Err(_) => {},
    }
}

/// One scan step over a number literal running from `start` to `end`: the
/// accumulated tokens grow by that literal's token.
proof fn lemma_scan_step_number(s: Seq<char>, start: int, end: int, acc: Seq<SpecToken>)
    requires
        0 <= start < end <= s.len(),
        is_digit(s[start]),
        op_token(s[start]) is None,
        literal_end(s, start + 1, false) == Ok::<_, Error>(end),
        match spec_scan(s, start) {
            Ok(rest) => spec_scan(s, 0) == Ok::<_, Error>(acc + rest),
            Err(e) => spec_scan(s, 0) == Err::<Seq<SpecToken>, _>(e),
        },
    ensures
        match spec_scan(s, end) {
            Ok(rest) => spec_scan(s, 0) == Ok::<_, Error>(
                (acc + seq![SpecToken::Number(s.subrange(start, end))]) + rest,
            ),
            Err(e) => spec_scan(s, 0) == Err::<Seq<SpecToken>, _>(e),
        },
{
    let lit = SpecToken::Number(s.subrange(start, end));
    match spec_scan(s, end) {
        Ok(rest) => {
            assert(spec_scan(s, start) == Ok::<_, Error>(seq![lit] + rest));
            assert(acc + (seq![lit] + rest) =~= (acc + seq![lit]) + rest);
        },
        Err(_) => {},
    }
}

} // verus!
