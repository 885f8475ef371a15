use std::rc::Rc;
use vstd::prelude::*;

use crate::ast::{BinOp, Type, TypeData, UnOp};

verus! {

pub type AstTyped = Rc<AstTypedData>;

/// Syntax trees whose operator nodes carry the type of their result.
#[derive(Debug, Clone, PartialEq, Eq, Hash)]
pub enum AstTypedData {
    Num(i64),
    Bool(bool),
    BinOp(BinOp, AstTyped, AstTyped, Type),
    UnOp(UnOp, AstTyped, Type),
}

impl AstTypedData {
    /// The type of the tree: that of its literal, or the one its root carries.
    pub open spec fn ty(self) -> TypeData {
        match self {
            AstTypedData::Num(_) => TypeData::Int,
            AstTypedData::Bool(_) => TypeData::Bool,
            AstTypedData::BinOp(_, _, _, t) => *t,
            AstTypedData::UnOp(_, _, t) => *t,
        }
    }

    pub fn type_of(&self) -> (res: Type)
        ensures
            *res == self.ty(),
    {
        let t = match self {
            AstTypedData::Num(_) => TypeData::Int,
            AstTypedData::Bool(_) => TypeData::Bool,
            AstTypedData::BinOp(_, _, _, t) => **t,
            AstTypedData::UnOp(_, _, t) => **t,
        };
        Rc::new(t)
    }
}

/// The tree behind a shared handle.
pub open spec fn tnode(r: &AstTyped) -> AstTypedData {
    **r
}

} // verus!
