use vstd::prelude::*;

pub mod ast;
pub mod error;
pub mod laws;
pub mod parser;
pub mod token;
pub mod tokenizer;

pub use ast::{ast_view, ASTNode, Op, SpecAst};
pub use error::Error;
pub use parser::Parser;
pub use token::{SpecToken, Token};
pub use tokenizer::tokenize;

verus! {

/// What a whole token sequence must yield: the parsed expression tree, a
/// parse failure where the sequence holds no expression at all, or the
/// parser's own error.
pub open spec fn spec_parse_tokens(toks: Seq<SpecToken>) -> Result<SpecAst, Error> {
    match parser::spec_parse(toks) {
        Err(e) => Err(e),
        Ok(None) => Err(Error::ParseFailure),
        Ok(Some(ast)) => Ok(ast),
    }
}

/// What the whole front end yields for an input: its tokens parsed into an
/// expression tree, or the error that stops the invocation.
pub open spec fn spec_pipeline(s: Seq<char>) -> Result<SpecAst, Error> {
    match tokenizer::spec_tokenize(s) {
        Err(e) => Err(e),
        Ok(toks) => spec_parse_tokens(toks),
    }
}

/// Parses an already-tokenized sequence into its expression tree.  A
/// sequence that holds no expression at all is surfaced as a fatal parse
/// failure.
pub fn parse_tokens(tokens: Vec<Token>) -> (r: Result<ASTNode, Error>)
    ensures
        match r {
            Ok(ast) => spec_parse_tokens(tokens.deep_view()) == Ok::<_, Error>(ast_view(ast)),
            Err(e) => spec_parse_tokens(tokens.deep_view()) == Err::<SpecAst, _>(e),
        },
{
    let mut parser = Parser::new(tokens);
    match parser.parse_program() {
        Ok(Some(ast)) => Ok(ast),
        Ok(None) => Err(Error::ParseFailure),
        Err(e) => Err(e),
    }
}

/// Tokenizes and parses one whole expression: the computing core of an
/// invocation.  Evaluating the returned tree is the caller's part.
pub fn parse_expression(src: &Vec<char>) -> (r: Result<ASTNode, Error>)
    ensures
        match r {
            Ok(ast) => spec_pipeline(src@) == Ok::<_, Error>(ast_view(ast)),
            Err(e) => spec_pipeline(src@) == Err::<SpecAst, _>(e),
        },
{
    let tokens = match tokenize(src) {
        Ok(t) => t,
        Err(e) => {
            return Err(e);
        },
    };
    parse_tokens(tokens)
}

} // verus!
