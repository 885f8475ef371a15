use std::rc::Rc;
use vstd::prelude::*;

use crate::ast::{node, Ast, AstData, BinOp, Symbol, Type, TypeData, UnOp};
use crate::ast_typed::{AstTyped, AstTypedData};
use crate::environment::Env;
use crate::interpreter::{eval_bin_op, eval_un_op, spec_eval, Value};

verus! {

pub open spec fn expected_int() -> Seq<char> {
    "Type error: expected Int"@
}

pub open spec fn expected_bool() -> Seq<char> {
    "Type error: expected Bool"@
}

pub open spec fn expected_same_type() -> Seq<char> {
    "Type error: expected same type for comparison"@
}

/// Arithmetic operators take and give integers.
pub open spec fn is_arith(op: BinOp) -> bool {
    op is Add || op is Sub || op is Mul || op is Div
}

/// Logical operators take and give booleans.
pub open spec fn is_logic(op: BinOp) -> bool {
    op is And || op is Or
}

/// The type a unary operator gives to an operand of type `t`.
pub open spec fn un_op_type(op: UnOp, t: TypeData) -> Result<TypeData, Seq<char>> {
    match op {
        UnOp::Neg => if t == TypeData::Int { Ok(TypeData::Int) } else { Err(expected_int()) },
        UnOp::Not => if t == TypeData::Bool { Ok(TypeData::Bool) } else { Err(expected_bool()) },
    }
}

/// The type a binary operator gives to operands of types `t1` and `t2`;
/// comparisons take any two operands of one type.
pub open spec fn bin_op_type(op: BinOp, t1: TypeData, t2: TypeData) -> Result<TypeData, Seq<char>> {
    if is_arith(op) {
        if t1 == TypeData::Int && t2 == TypeData::Int { Ok(TypeData::Int) } else { Err(expected_int()) }
    } else if is_logic(op) {
        if t1 == TypeData::Bool && t2 == TypeData::Bool { Ok(TypeData::Bool) } else { Err(expected_bool()) }
    } else {
        if t1 == t2 { Ok(TypeData::Bool) } else { Err(expected_same_type()) }
    }
}

/// The type of an expression, or the first type error met (operands are
/// checked left to right, before the operator).
pub open spec fn typ(e: AstData) -> Result<TypeData, Seq<char>>
    decreases e,
{
    match e {
        AstData::Num(_) => Ok(TypeData::Int),
        AstData::Bool(_) => Ok(TypeData::Bool),
        AstData::UnOp(op, e1) => match typ(*e1) {
            Ok(t) => un_op_type(op, t),
            Err(m) => Err(m),
        },
        AstData::BinOp(op, e1, e2) => match typ(*e1) {
            Ok(t1) => match typ(*e2) {
                Ok(t2) => bin_op_type(op, t1, t2),
                Err(m) => Err(m),
            },
            Err(m) => Err(m),
        },
    }
}

/// `te` is `e` with every operator node annotated with its type.
pub open spec fn annotates(te: AstTypedData, e: AstData) -> bool
    decreases te,
{
    match (te, e) {
        (AstTypedData::Num(a), AstData::Num(b)) => a == b,
        (AstTypedData::Bool(a), AstData::Bool(b)) => a == b,
        (AstTypedData::UnOp(op, x, t), AstData::UnOp(op2, y)) => {
            &&& op == op2
            &&& annotates(*x, *y)
            &&& typ(e) == Ok::<TypeData, Seq<char>>(*t)
        },
        (AstTypedData::BinOp(op, x1, x2, t), AstData::BinOp(op2, y1, y2)) => {
            &&& op == op2
            &&& annotates(*x1, *y1)
            &&& annotates(*x2, *y2)
            &&& typ(e) == Ok::<TypeData, Seq<char>>(*t)
        },
        _ => false,
    }
}

/// An annotated tree has the type of the tree it annotates.
pub proof fn lemma_annotates_ty(te: AstTypedData, e: AstData)
    requires
        annotates(te, e),
    ensures
        typ(e) == Ok::<TypeData, Seq<char>>(te.ty()),
{
}

/// The type of a value.
pub open spec fn value_type(v: Value) -> TypeData {
    match v {
        Value::Int(_) => TypeData::Int,
        Value::Bool(_) => TypeData::Bool,
    }
}

/// Type soundness: an expression that has a type and evaluates to a value
/// evaluates to a value of that type.
pub proof fn theorem_type_soundness(e: AstData)
    requires
        typ(e) is Ok,
        spec_eval(e) matches Some(Ok(v)),
    ensures
        value_type(spec_eval(e)->Some_0->Ok_0) == typ(e)->Ok_0,
    decreases e,
{
    match e {
        AstData::UnOp(op, x) => {
            theorem_type_soundness(node(&x));
        },
        AstData::BinOp(op, x, y) => {
            theorem_type_soundness(node(&x));
            theorem_type_soundness(node(&y));
        },
        _ => {},
    }
}

/// An arithmetic operator has a type only over two integers: it types to
/// `Int` when both operands are integers, and otherwise reports that it
/// expected integers (after any error of its operands, left first).
pub proof fn lemma_arithmetic_typing(op: BinOp, e1: AstData, e2: AstData)
    requires
        op is Add || op is Sub || op is Mul || op is Div,
    ensures
        typ(AstData::BinOp(op, Rc::new(e1), Rc::new(e2))) == match (typ(e1), typ(e2)) {
            (Err(m), _) => Err(m),
            (Ok(_), Err(m)) => Err(m),
            (Ok(TypeData::Int), Ok(TypeData::Int)) => Ok(TypeData::Int),
            (Ok(_), Ok(_)) => Err::<TypeData, Seq<char>>("Type error: expected Int"@),
        },
{
    let e = AstData::BinOp(op, Rc::new(e1), Rc::new(e2));
    assert(typ(e) == match typ(e1) {
        Ok(t1) => match typ(e2) {
            Ok(t2) => bin_op_type(op, t1, t2),
            Err(m) => Err(m),
        },
        Err(m) => Err::<TypeData, Seq<char>>(m),
    });
}

/// An expression of type `Int` never fails for meeting a value of the wrong
/// type: its evaluation gives an integer, overflows, or divides by zero,
/// but never reports "Expecting integers", "Expecting an integer" or
/// "Expecting a boolean".
pub proof fn theorem_integer_expressions_are_safe(e: AstData)
    requires
        typ(e) == Ok::<TypeData, Seq<char>>(TypeData::Int),
    ensures
        !(spec_eval(e) matches Some(Err(m)) && (m == "Expecting integers"@ || m == "Expecting an integer"@ || m
            == "Expecting a boolean"@)),
    decreases e,
{
    reveal_strlit("Expecting integers");
    reveal_strlit("Expecting an integer");
    reveal_strlit("Expecting a boolean");
    reveal_strlit("Division by zero");
    assert("Division by zero"@[0] == 'D');
    assert("Expecting integers"@[0] == 'E');
    assert("Expecting an integer"@[0] == 'E');
    assert("Expecting a boolean"@[0] == 'E');
    match e {
        AstData::UnOp(op, x) => {
            theorem_integer_expressions_are_safe(node(&x));
            if spec_eval(node(&x)) matches Some(Ok(_)) {
                theorem_type_soundness(node(&x));
            }
        },
        AstData::BinOp(op, x, y) => {
            theorem_integer_expressions_are_safe(node(&x));
            theorem_integer_expressions_are_safe(node(&y));
            if spec_eval(node(&x)) matches Some(Ok(_)) {
                theorem_type_soundness(node(&x));
            }
            if spec_eval(node(&y)) matches Some(Ok(_)) {
                theorem_type_soundness(node(&y));
            }
        },
        _ => {},
    }
}

fn err_typed(msg: &str) -> (res: Result<AstTyped, String>)
    ensures
        res matches Err(m) && m@ == msg@,
{
    Err(String::from_str(msg))
}

pub trait TypeCheck {
    fn type_check(&self, env: Rc<Env<Symbol, Type>>) -> Result<AstTyped, String>;
}

impl TypeCheck for Ast {
    /// Annotates the expression with types, or reports its first type error.
    fn type_check(&self, env: Rc<Env<Symbol, Type>>) -> (res: Result<AstTyped, String>)
        ensures
            match res {
                Ok(te) => typ(**self) == Ok::<TypeData, Seq<char>>(te.ty()) && annotates(*te, **self),
                Err(m) => typ(**self) == Err::<TypeData, Seq<char>>(m@),
            },
        decreases **self,
    {
        match &**self {
            AstData::Num(n) => Ok(Rc::new(AstTypedData::Num(*n))),
            AstData::Bool(b) => Ok(Rc::new(AstTypedData::Bool(*b))),
            AstData::UnOp(op, e) => {
                let t_e = e.type_check(env)?;
                let t = t_e.type_of();
                match (op, &*t) {
                    (UnOp::Neg, TypeData::Int) => Ok(
                        Rc::new(AstTypedData::UnOp(UnOp::Neg, t_e, Rc::new(TypeData::Int))),
                    ),
                    (UnOp::Neg, _) => err_typed("Type error: expected Int"),
                    (UnOp::Not, TypeData::Bool) => Ok(
                        Rc::new(AstTypedData::UnOp(UnOp::Not, t_e, Rc::new(TypeData::Bool))),
                    ),
                    (UnOp::Not, _) => err_typed("Type error: expected Bool"),
                }
            },
            AstData::BinOp(op, e1, e2) => {
                let t_e1 = e1.type_check(crate::util::share(&env))?;
                let t_e2 = e2.type_check(env)?;
                let t_1 = t_e1.type_of();
                let t_2 = t_e2.type_of();
                match (op, &*t_1, &*t_2) {
                    (
                        BinOp::Add | BinOp::Sub | BinOp::Mul | BinOp::Div,
                        TypeData::Int,
                        TypeData::Int,
                    ) => Ok(Rc::new(AstTypedData::BinOp(*op, t_e1, t_e2, Rc::new(TypeData::Int)))),
                    (BinOp::Add | BinOp::Sub | BinOp::Mul | BinOp::Div, _, _) => err_typed(
                        "Type error: expected Int",
                    ),
                    (BinOp::And | BinOp::Or, TypeData::Bool, TypeData::Bool) => Ok(
                        Rc::new(AstTypedData::BinOp(*op, t_e1, t_e2, Rc::new(TypeData::Bool))),
                    ),
                    (BinOp::And | BinOp::Or, _, _) => err_typed("Type error: expected Bool"),
                    (
                        BinOp::Eq | BinOp::Lt | BinOp::Gt | BinOp::Ne | BinOp::Le | BinOp::Ge,
                        _,
                        _,
                    ) => {
                        if *t_1 == *t_2 {
                            Ok(Rc::new(AstTypedData::BinOp(*op, t_e1, t_e2, Rc::new(TypeData::Bool))))
                        } else {
                            err_typed("Type error: expected same type for comparison")
                        }
                    },
                }
            },
        }
    }
}

} // verus!
