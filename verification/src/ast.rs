use vstd::prelude::*;

verus! {

/// A binary operator of the expression language.
#[derive(Debug, Clone, Copy, PartialEq, Eq, Structural)]
pub enum Op {
    Mul,
    Add,
    Sub,
    Div,
}

/// An expression tree: a number literal at each leaf, a binary operator at
/// each internal node.  Each node owns its two children; the tree is built
/// bottom-up by the parser and never shared.
#[derive(Debug, PartialEq)]
pub enum ASTNode {
    Number(Vec<char>),
    BinaryOp { left: Box<ASTNode>, op: Op, right: Box<ASTNode> },
}

/// The mathematical form of an expression tree: literals are character
/// sequences.
pub enum SpecAst {
    Number(Seq<char>),
    BinaryOp { left: Box<SpecAst>, op: Op, right: Box<SpecAst> },
}

/// An internal node over two subtrees.
pub open spec fn binary(left: SpecAst, op: Op, right: SpecAst) -> SpecAst {
    SpecAst::BinaryOp { left: Box::new(left), op, right: Box::new(right) }
}

/// The mathematical form of an expression tree.
pub open spec fn ast_view(a: ASTNode) -> SpecAst
    decreases a,
{
    match a {
        ASTNode::Number(lit) => SpecAst::Number(lit@),
        ASTNode::BinaryOp { left, op, right } => SpecAst::BinaryOp {
            left: Box::new(ast_view(*left)),
            op,
            right: Box::new(ast_view(*right)),
        },
    }
}

} // verus!
