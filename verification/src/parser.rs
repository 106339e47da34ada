use vstd::prelude::*;

use crate::ast::{ast_view, binary, ASTNode, Op, SpecAst};
use crate::error::Error;
use crate::token::{SpecToken, Token};

verus! {

/// The primary production: a number token becomes a leaf and the cursor
/// moves past it; anything else yields no node and consumes nothing.
pub open spec fn spec_primary(toks: Seq<SpecToken>, i: int) -> Option<(SpecAst, int)> {
    if 0 <= i < toks.len() {
        match toks[i] {
            SpecToken::Number(lit) => Some((SpecAst::Number(lit), i + 1)),
            _ => None,
        }
    } else {
        None
    }
}

/// Extends `acc` with `x` and `/` operators at the multiplicative level:
/// repeated operators associate to the left.  A bare number where an
/// operator was expected is malformed; an operator whose right operand
/// yields no node ends the expression just past that operator; any other
/// token ends it in place.
pub open spec fn spec_mul_rest(toks: Seq<SpecToken>, i: int, acc: SpecAst) -> Result<
    (SpecAst, int),
    Error,
>
    decreases toks.len() - i,
{
    if i < 0 || i >= toks.len() {
        Ok((acc, i))
    } else if toks[i] is Mul || toks[i] is Div {
        let op = if toks[i] is Mul {
            Op::Mul
        } else {
            Op::Div
        };
        match spec_primary(toks, i + 1) {
            Some((rhs, j)) => spec_mul_rest(toks, j, binary(acc, op, rhs)),
            None => Ok((acc, i + 1)),
        }
    } else if toks[i] is Number {
        Err(Error::InvalidExpression)
    } else {
        Ok((acc, i))
    }
}

/// The multiplicative production: a primary operand, then any run of `x`
/// and `/` operators.
pub open spec fn spec_multiplicative(toks: Seq<SpecToken>, i: int) -> Result<
    Option<(SpecAst, int)>,
    Error,
> {
    match spec_primary(toks, i) {
        None => Ok(None),
        Some((first, j)) => match spec_mul_rest(toks, j, first) {
            Ok((e, k)) => Ok(Some((e, k))),
            Err(er) => Err(er),
        },
    }
}

/// A multiplicative chain that went right ends at or after where it began,
/// and within the tokens.
pub proof fn lemma_mul_rest_bounds(toks: Seq<SpecToken>, i: int, acc: SpecAst)
    requires
        i <= toks.len(),
    ensures
        spec_mul_rest(toks, i, acc) matches Ok((e, k)) ==> i <= k <= toks.len(),
    decreases toks.len() - i,
{
    if 0 <= i < toks.len() && (toks[i] is Mul || toks[i] is Div) {
        let op = if toks[i] is Mul {
            Op::Mul
        } else {
            Op::Div
        };
        if let Some((rhs, j)) = spec_primary(toks, i + 1) {
            lemma_mul_rest_bounds(toks, j, binary(acc, op, rhs));
        }
    }
}

/// Extends `acc` with `+` and `-` operators at the additive level, each
/// right operand a whole multiplicative expression; the same strictness
/// and truncation rules as at the multiplicative level.
pub open spec fn spec_add_rest(toks: Seq<SpecToken>, i: int, acc: SpecAst) -> Result<
    (SpecAst, int),
    Error,
>
    decreases toks.len() - i,
    via spec_add_rest_decreases
{
    if i < 0 || i >= toks.len() {
        Ok((acc, i))
    } else if toks[i] is Add || toks[i] is Sub {
        let op = if toks[i] is Add {
            Op::Add
        } else {
            Op::Sub
        };
        match spec_multiplicative(toks, i + 1) {
            Err(e) => Err(e),
            Ok(None) => Ok((acc, i + 1)),
            Ok(Some((rhs, j))) => spec_add_rest(toks, j, binary(acc, op, rhs)),
        }
    } else if toks[i] is Number {
        Err(Error::InvalidExpression)
    } else {
        Ok((acc, i))
    }
}

#[via_fn]
proof fn spec_add_rest_decreases(toks: Seq<SpecToken>, i: int, acc: SpecAst) {
    if 0 <= i < toks.len() && (toks[i] is Add || toks[i] is Sub) {
        if let Some((first, j)) = spec_primary(toks, i + 1) {
            lemma_mul_rest_bounds(toks, j, first);
        }
    }
}

/// The additive production: a multiplicative operand, then any run of `+`
/// and `-` operators.
pub open spec fn spec_additive(toks: Seq<SpecToken>, i: int) -> Result<
    Option<(SpecAst, int)>,
    Error,
> {
    match spec_multiplicative(toks, i) {
        Err(e) => Err(e),
        Ok(None) => Ok(None),
        Ok(Some((first, j))) => match spec_add_rest(toks, j, first) {
            Ok((e, k)) => Ok(Some((e, k))),
            Err(er) => Err(er),
        },
    }
}

/// What parsing the whole token sequence yields: the expression of the
/// additive production, begun at the first token.  Tokens past the parsed
/// expression are ignored.
pub open spec fn spec_parse(toks: Seq<SpecToken>) -> Result<Option<SpecAst>, Error> {
    match spec_additive(toks, 0) {
        Err(e) => Err(e),
        Ok(None) => Ok(None),
        Ok(Some((e, _))) => Ok(Some(e)),
    }
}

/// Consumes the token sequence left to right, with one token of lookahead,
/// and builds the expression tree by recursive descent.
pub struct Parser {
    tokens: Vec<Token>,
    pos: usize,
}

impl Parser {
    /// The tokens being parsed, in their mathematical form.
    pub closed spec fn toks(&self) -> Seq<SpecToken> {
        self.tokens.deep_view()
    }

    /// How many tokens are consumed so far.
    pub closed spec fn cursor(&self) -> int {
        self.pos as int
    }

    /// The cursor never leaves the token sequence.
    pub closed spec fn wf(&self) -> bool {
        self.pos <= self.tokens.len()
    }

    pub fn new(tokens: Vec<Token>) -> (p: Parser)
        ensures
            p.toks() == tokens.deep_view(),
            p.cursor() == 0,
            p.wf(),
    {
        Parser { tokens, pos: 0 }
    }

    /// The primary production: a number token, consumed, or no node at all.
    pub fn parse_primary_exp(&mut self) -> (r: Result<Option<ASTNode>, Error>)
        requires
            old(self).wf(),
        ensures
            final(self).wf(),
            final(self).toks() == old(self).toks(),
            match r {
                Ok(Some(ast)) => spec_primary(old(self).toks(), old(self).cursor()) == Some(
                    (ast_view(ast), final(self).cursor()),
                ),
                Ok(None) => spec_primary(old(self).toks(), old(self).cursor()) is None
                    && *final(self) == *old(self),
                Err(_) => false,
            },
    {
        if self.pos >= self.tokens.len() {
            return Ok(None);
        }
        proof {
            assert(self.toks()[self.cursor()] == self.tokens@[self.cursor()]@);
        }
        let lit_opt: Option<Vec<char>> = match &self.tokens[self.pos] {
            Token::Number(lit) => Some(lit.clone()),
            _ => None,
        };
        match lit_opt {
            Some(lit) => {
                proof {
                    assert(self.toks()[self.cursor()] matches SpecToken::Number(l) && l == lit@);
                }
                self.pos = self.pos + 1;
                Ok(Some(ASTNode::Number(lit)))
            },
            None => Ok(None),
        }
    }

    /// The multiplicative production: a primary operand, then any run of
    /// `x` and `/` operators, folded to the left.
    pub fn parse_multiplicative(&mut self) -> (r: Result<Option<ASTNode>, Error>)
        requires
            old(self).wf(),
        ensures
            final(self).wf(),
            final(self).toks() == old(self).toks(),
            match r {
                Ok(Some(ast)) => spec_multiplicative(old(self).toks(), old(self).cursor())
                    == Ok::<_, Error>(Some((ast_view(ast), final(self).cursor()))),
                Ok(None) => spec_multiplicative(old(self).toks(), old(self).cursor())
                    == Ok::<Option<(SpecAst, int)>, Error>(None) && *final(self) == *old(self),
                Err(e) => spec_multiplicative(old(self).toks(), old(self).cursor())
                    == Err::<Option<(SpecAst, int)>, _>(e),
            },
    {
        let first_r = self.parse_primary_exp();
        let mut expr: ASTNode;
        match first_r {
            Ok(Some(e)) => {
                expr = e;
            },
            Ok(None) => {
                return Ok(None);
            },
            Err(e) => {
                proof {
                    assert(false);
                }
                return Err(e);
            },
        }
        let ghost j0 = self.cursor();
        let ghost first_dv = ast_view(expr);
        while self.pos < self.tokens.len()
            invariant_except_break
                self.wf(),
                self.toks() == old(self).toks(),
                spec_mul_rest(old(self).toks(), self.cursor(), ast_view(expr)) == spec_mul_rest(
                    old(self).toks(),
                    j0,
                    first_dv,
                ),
                spec_primary(old(self).toks(), old(self).cursor()) == Some((first_dv, j0)),
            ensures
                self.wf(),
                self.toks() == old(self).toks(),
                spec_mul_rest(old(self).toks(), j0, first_dv) == Ok::<_, Error>(
                    (ast_view(expr), self.cursor()),
                ),
                spec_primary(old(self).toks(), old(self).cursor()) == Some((first_dv, j0)),
            decreases self.tokens.len() - self.pos,
        {
            let ghost ci = self.cursor();
            proof {
                assert(self.toks()[ci] == self.tokens@[ci]@);
            }
            let op: Op;
            match &self.tokens[self.pos] {
                Token::Mul => {
                    op = Op::Mul;
                },
                Token::Div => {
                    op = Op::Div;
                },
                Token::Number(_) => {
                    proof {
                        assert(spec_mul_rest(old(self).toks(), ci, ast_view(expr))
                            == Err::<(SpecAst, int), _>(Error::InvalidExpression));
                    }
                    return Err(Error::InvalidExpression);
                },
                _ => {
                    proof {
                        assert(spec_mul_rest(old(self).toks(), ci, ast_view(expr))
                            == Ok::<_, Error>((ast_view(expr), ci)));
                    }
                    break;
                },
            }
            self.pos = self.pos + 1;
            let ghost old_dv = ast_view(expr);
            let rhs_r = self.parse_primary_exp();
            match rhs_r {
                Ok(Some(right)) => {
                    let ghost right_dv = ast_view(right);
                    expr = ASTNode::BinaryOp { left: Box::new(expr), op, right: Box::new(right) };
                    proof {
                        assert(ast_view(expr) == binary(old_dv, op, right_dv));
                        assert(spec_mul_rest(old(self).toks(), ci, old_dv) == spec_mul_rest(
                            old(self).toks(),
                            self.cursor(),
                            ast_view(expr),
                        ));
                    }
                },
                Ok(None) => {
                    proof {
                        assert(spec_mul_rest(old(self).toks(), ci, old_dv) == Ok::<_, Error>(
                            (old_dv, ci + 1),
                        ));
                    }
                    break;
                },
                Err(e) => {
                    proof {
                        assert(false);
                    }
                    return Err(e);
                },
            }
        }
        Ok(Some(expr))
    }

    /// The additive production: a multiplicative operand, then any run of
    /// `+` and `-` operators, folded to the left.
    pub fn parse_additive(&mut self) -> (r: Result<Option<ASTNode>, Error>)
        requires
            old(self).wf(),
        ensures
            final(self).wf(),
            final(self).toks() == old(self).toks(),
            match r {
                Ok(Some(ast)) => spec_additive(old(self).toks(), old(self).cursor())
                    == Ok::<_, Error>(Some((ast_view(ast), final(self).cursor()))),
                Ok(None) => spec_additive(old(self).toks(), old(self).cursor())
                    == Ok::<Option<(SpecAst, int)>, Error>(None) && *final(self) == *old(self),
                Err(e) => spec_additive(old(self).toks(), old(self).cursor())
                    == Err::<Option<(SpecAst, int)>, _>(e),
            },
    {
        let first_r = self.parse_multiplicative();
        let mut expr: ASTNode;
        match first_r {
            Ok(Some(e)) => {
                expr = e;
            },
            Ok(None) => {
                return Ok(None);
            },
            Err(e) => {
                return Err(e);
            },
        }
        let ghost j0 = self.cursor();
        let ghost first_dv = ast_view(expr);
        while self.pos < self.tokens.len()
            invariant_except_break
                self.wf(),
                self.toks() == old(self).toks(),
                spec_add_rest(old(self).toks(), self.cursor(), ast_view(expr)) == spec_add_rest(
                    old(self).toks(),
                    j0,
                    first_dv,
                ),
                spec_multiplicative(old(self).toks(), old(self).cursor()) == Ok::<_, Error>(
                    Some((first_dv, j0)),
                ),
            ensures
                self.wf(),
                self.toks() == old(self).toks(),
                spec_add_rest(old(self).toks(), j0, first_dv) == Ok::<_, Error>(
                    (ast_view(expr), self.cursor()),
                ),
                spec_multiplicative(old(self).toks(), old(self).cursor()) == Ok::<_, Error>(
                    Some((first_dv, j0)),
                ),
            decreases self.tokens.len() - self.pos,
        {
            let ghost ci = self.cursor();
            proof {
                assert(self.toks()[ci] == self.tokens@[ci]@);
            }
            let op: Op;
            match &self.tokens[self.pos] {
                Token::Add => {
                    op = Op::Add;
                },
                Token::Sub => {
                    op = Op::Sub;
                },
                Token::Number(_) => {
                    proof {
                        assert(spec_add_rest(old(self).toks(), ci, ast_view(expr))
                            == Err::<(SpecAst, int), _>(Error::InvalidExpression));
                    }
                    return Err(Error::InvalidExpression);
                },
                _ => {
                    proof {
                        assert(spec_add_rest(old(self).toks(), ci, ast_view(expr))
                            == Ok::<_, Error>((ast_view(expr), ci)));
                    }
                    break;
                },
            }
            self.pos = self.pos + 1;
            let ghost old_dv = ast_view(expr);
            let rhs_r = self.parse_multiplicative();
            match rhs_r {
                Ok(Some(right)) => {
                    let ghost right_dv = ast_view(right);
                    expr = ASTNode::BinaryOp { left: Box::new(expr), op, right: Box::new(right) };
                    proof {
                        if let Some((f, j1)) = spec_primary(old(self).toks(), ci + 1) {
                            lemma_mul_rest_bounds(old(self).toks(), j1, f);
                        }
                        assert(ast_view(expr) == binary(old_dv, op, right_dv));
                        assert(spec_add_rest(old(self).toks(), ci, old_dv) == spec_add_rest(
                            old(self).toks(),
                            self.cursor(),
                            ast_view(expr),
                        ));
                    }
                },
                Ok(None) => {
                    proof {
                        assert(spec_add_rest(old(self).toks(), ci, old_dv) == Ok::<_, Error>(
                            (old_dv, ci + 1),
                        ));
                    }
                    break;
                },
                Err(e) => {
                    proof {
                        assert(spec_add_rest(old(self).toks(), ci, old_dv) == Err::<
                            (SpecAst, int),
                            _,
                        >(e));
                    }
                    return Err(e);
                },
            }
        }
        Ok(Some(expr))
    }

    /// The whole program: one additive expression, or no expression at all.
    pub fn parse_program(&mut self) -> (r: Result<Option<ASTNode>, Error>)
        requires
            old(self).wf(),
            old(self).cursor() == 0,
        ensures
            final(self).wf(),
            final(self).toks() == old(self).toks(),
            match r {
                Ok(Some(ast)) => spec_parse(old(self).toks()) == Ok::<_, Error>(
                    Some(ast_view(ast)),
                ),
                Ok(None) => spec_parse(old(self).toks()) == Ok::<Option<SpecAst>, Error>(None),
                Err(e) => spec_parse(old(self).toks()) == Err::<Option<SpecAst>, _>(e),
            },
    {
        self.parse_additive()
    }
}

} // verus!
