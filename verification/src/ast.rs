use std::rc::Rc;
use vstd::prelude::*;

verus! {

/// The types of the L0 language.
pub type Type = Rc<TypeData>;

#[derive(Debug, Clone, Copy, PartialEq, Eq, Hash, Structural)]
pub enum TypeData {
    Int,
    Bool,
}

/// Binary operators.
#[derive(Debug, Clone, Copy, PartialEq, Eq, Hash, Structural)]
pub enum BinOp {
    Add,
    Sub,
    Mul,
    Div,
    And,
    Or,
    Eq,
    Lt,
    Gt,
    Ne,
    Le,
    Ge,
}

pub type Symbol = i64;

/// Unary operators.
#[derive(Debug, Clone, Copy, PartialEq, Eq, Hash, Structural)]
pub enum UnOp {
    Neg,
    Not,
}

pub type Ast = Rc<AstData>;

/// Untyped abstract syntax trees.
#[derive(Debug, Clone, PartialEq, Eq, Hash)]
pub enum AstData {
    Num(i64),
    Bool(bool),
    BinOp(BinOp, Ast, Ast),
    UnOp(UnOp, Ast),
}

/// The tree behind a shared handle.
pub open spec fn node(r: &Ast) -> AstData {
    **r
}

} // verus!
