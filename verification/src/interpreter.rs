use std::rc::Rc;
use vstd::prelude::*;

use crate::ast::{Ast, AstData, BinOp, Symbol, UnOp};
use crate::environment::Env;

verus! {

/// The values that expressions evaluate to.
#[derive(Debug, Clone, Copy, PartialEq, Eq, Structural)]
pub enum Value {
    Int(i64),
    Bool(bool),
}

/// What an evaluation ends in: `None` where the evaluation overflows the
/// machine integers (the arithmetic would panic), otherwise the value or
/// the error message.
pub type Outcome = Option<Result<Value, Seq<char>>>;

/// Quotient of `n` by `m` rounded toward zero (`m != 0`).
pub open spec fn div_trunc(n: int, m: int) -> int {
    if n == 0 {
        0
    } else if n > 0 && m > 0 {
        n / m
    } else if n < 0 && m < 0 {
        (n * -1) / (m * -1)
    } else if n < 0 {
        ((n * -1) / m) * -1
    } else {
        (n / (m * -1)) * -1
    }
}

pub open spec fn fits_i64(n: int) -> bool {
    i64::MIN <= n <= i64::MAX
}

/// The outcome of an arithmetic result `n`: the integer, or an overflow.
pub open spec fn int_outcome(n: int) -> Outcome {
    if fits_i64(n) {
        Some(Ok(Value::Int(n as i64)))
    } else {
        None
    }
}

pub open spec fn expecting_integers() -> Seq<char> {
    "Expecting integers"@
}

/// Applies a binary operator to two values.
pub open spec fn eval_bin_op(op: BinOp, v1: Value, v2: Value) -> Outcome {
    match op {
        BinOp::Eq => Some(Ok(Value::Bool(v1 == v2))),
        BinOp::Ne => Some(Ok(Value::Bool(v1 != v2))),
        BinOp::And | BinOp::Or => Some(Err("Internal Error, this should not happen"@)),
        _ => match (v1, v2) {
            (Value::Int(n), Value::Int(m)) => match op {
                BinOp::Add => int_outcome(n + m),
                BinOp::Sub => int_outcome(n - m),
                BinOp::Mul => int_outcome(n * m),
                BinOp::Div => if m == 0 {
                    Some(Err("Division by zero"@))
                } else {
                    int_outcome(div_trunc(n as int, m as int))
                },
                BinOp::Lt => Some(Ok(Value::Bool(n < m))),
                BinOp::Gt => Some(Ok(Value::Bool(n > m))),
                BinOp::Le => Some(Ok(Value::Bool(n <= m))),
                _ => Some(Ok(Value::Bool(n >= m))),
            },
            _ => Some(Err(expecting_integers())),
        },
    }
}

/// Applies a unary operator to a value.
pub open spec fn eval_un_op(op: UnOp, v: Value) -> Outcome {
    match (op, v) {
        (UnOp::Neg, Value::Int(n)) => int_outcome(-n),
        (UnOp::Neg, _) => Some(Err("Expecting an integer"@)),
        (UnOp::Not, Value::Bool(b)) => Some(Ok(Value::Bool(!b))),
        (UnOp::Not, _) => Some(Err("Expecting a boolean"@)),
    }
}

/// The meaning of an expression: operands are evaluated left to right, and
/// the first error (or overflow) met ends the evaluation.
pub open spec fn spec_eval(e: AstData) -> Outcome
    decreases e,
{
    match e {
        AstData::Num(n) => Some(Ok(Value::Int(n))),
        AstData::Bool(b) => Some(Ok(Value::Bool(b))),
        AstData::BinOp(op, e1, e2) => match spec_eval(*e1) {
            Some(Ok(v1)) => match spec_eval(*e2) {
                Some(Ok(v2)) => eval_bin_op(op, v1, v2),
                other => other,
            },
            other => other,
        },
        AstData::UnOp(op, e1) => match spec_eval(*e1) {
            Some(Ok(v)) => eval_un_op(op, v),
            other => other,
        },
    }
}

/// An evaluation result with its message seen as characters.
pub open spec fn result_view(r: Result<Value, String>) -> Result<Value, Seq<char>> {
    match r {
        Ok(v) => Ok(v),
        Err(m) => Err(m@),
    }
}

pub open spec fn outcome_view(r: Option<Result<Value, String>>) -> Outcome {
    match r {
        Some(r) => Some(result_view(r)),
        None => None,
    }
}

fn int_result(r: Option<i64>) -> (res: Option<Result<Value, String>>)
    ensures
        res == match r {
            Some(n) => Some(Ok::<Value, String>(Value::Int(n))),
            None => None::<Result<Value, String>>,
        },
{
    match r {
        Some(n) => Some(Ok(Value::Int(n))),
        None => None,
    }
}

fn err_outcome(msg: &str) -> (res: Option<Result<Value, String>>)
    ensures
        outcome_view(res) == Some(Err::<Value, Seq<char>>(msg@)),
{
    Some(Err(String::from_str(msg)))
}

fn exec_bin_op(op: BinOp, v1: Value, v2: Value) -> (res: Option<Result<Value, String>>)
    ensures
        outcome_view(res) == eval_bin_op(op, v1, v2),
{
    match op {
        BinOp::Eq => Some(Ok(Value::Bool(v1 == v2))),
        BinOp::Ne => Some(Ok(Value::Bool(v1 != v2))),
        BinOp::And | BinOp::Or => err_outcome("Internal Error, this should not happen"),
        _ => match (v1, v2) {
            (Value::Int(n), Value::Int(m)) => match op {
                BinOp::Add => int_result(n.checked_add(m)),
                BinOp::Sub => int_result(n.checked_sub(m)),
                BinOp::Mul => int_result(n.checked_mul(m)),
                BinOp::Div => {
                    if m == 0 {
                        err_outcome("Division by zero")
                    } else {
                        int_result(n.checked_div(m))
                    }
                },
                BinOp::Lt => Some(Ok(Value::Bool(n < m))),
                BinOp::Gt => Some(Ok(Value::Bool(n > m))),
                BinOp::Le => Some(Ok(Value::Bool(n <= m))),
                _ => Some(Ok(Value::Bool(n >= m))),
            },
            _ => err_outcome("Expecting integers"),
        },
    }
}

fn exec_un_op(op: UnOp, v: Value) -> (res: Option<Result<Value, String>>)
    ensures
        outcome_view(res) == eval_un_op(op, v),
{
    match (op, v) {
        (UnOp::Neg, Value::Int(n)) => {
            if n == i64::MIN {
                None
            } else {
                Some(Ok(Value::Int(-n)))
            }
        },
        (UnOp::Neg, _) => err_outcome("Expecting an integer"),
        (UnOp::Not, Value::Bool(b)) => Some(Ok(Value::Bool(!b))),
        (UnOp::Not, _) => err_outcome("Expecting a boolean"),
    }
}

/// Evaluates `e`, answering `None` where the evaluation would overflow the
/// machine integers; callers that must not panic test this before `eval`.
pub fn eval_checked(e: &Ast, env: Rc<Env<Symbol, Value>>) -> (res: Option<Result<Value, String>>)
    ensures
        outcome_view(res) == spec_eval(**e),
    decreases **e,
{
    match &**e {
        AstData::Num(x) => Some(Ok(Value::Int(*x))),
        AstData::Bool(b) => Some(Ok(Value::Bool(*b))),
        AstData::BinOp(op, e1, e2) => {
            match eval_checked(e1, crate::util::share(&env)) {
                Some(Ok(v1)) => match eval_checked(e2, env) {
                    Some(Ok(v2)) => exec_bin_op(*op, v1, v2),
                    other => other,
                },
                other => other,
            }
        },
        AstData::UnOp(op, e1) => {
            match eval_checked(e1, env) {
                Some(Ok(v)) => exec_un_op(*op, v),
                other => other,
            }
        },
    }
}

pub trait Eval {
    /// Holds where evaluating `self` stays within the machine integers.
    spec fn eval_defined(&self) -> bool;

    fn eval(&self, env: Rc<Env<Symbol, Value>>) -> Result<Value, String>
        requires
            self.eval_defined(),
    ;
}

impl Eval for Ast {
    open spec fn eval_defined(&self) -> bool {
        spec_eval(**self) is Some
    }

    /// Evaluates the expression.
    fn eval(&self, env: Rc<Env<Symbol, Value>>) -> (res: Result<Value, String>)
        ensures
            Some(result_view(res)) == spec_eval(**self),
    {
        match eval_checked(self, env) {
            Some(r) => r,
            None => {
                proof {
                    assert(false);
                }
                Err(String::new())
            },
        }
    }
}

/// Integer arithmetic is that of `i64`: a sum, difference or product is the
/// exact result whenever that fits in an `i64`, and an overflow exactly when
/// it does not.
pub proof fn lemma_arithmetic_is_i64(n: i64, m: i64)
    ensures
        i64::MIN <= n + m <= i64::MAX ==> eval_bin_op(BinOp::Add, Value::Int(n), Value::Int(m)) == Some(
            Ok::<Value, Seq<char>>(Value::Int((n + m) as i64)),
        ),
        !(i64::MIN <= n + m <= i64::MAX) ==> eval_bin_op(BinOp::Add, Value::Int(n), Value::Int(m)) is None,
        i64::MIN <= n - m <= i64::MAX ==> eval_bin_op(BinOp::Sub, Value::Int(n), Value::Int(m)) == Some(
            Ok::<Value, Seq<char>>(Value::Int((n - m) as i64)),
        ),
        !(i64::MIN <= n - m <= i64::MAX) ==> eval_bin_op(BinOp::Sub, Value::Int(n), Value::Int(m)) is None,
        i64::MIN <= n * m <= i64::MAX ==> eval_bin_op(BinOp::Mul, Value::Int(n), Value::Int(m)) == Some(
            Ok::<Value, Seq<char>>(Value::Int((n * m) as i64)),
        ),
        !(i64::MIN <= n * m <= i64::MAX) ==> eval_bin_op(BinOp::Mul, Value::Int(n), Value::Int(m)) is None,
        i64::MIN <= n + m <= i64::MAX ==> spec_eval(
            AstData::BinOp(BinOp::Add, Rc::new(AstData::Num(n)), Rc::new(AstData::Num(m))),
        ) == Some(Ok::<Value, Seq<char>>(Value::Int((n + m) as i64))),
{
    let x = Rc::new(AstData::Num(n));
    let y = Rc::new(AstData::Num(m));
    assert(spec_eval(*x) == Some(Ok::<Value, Seq<char>>(Value::Int(n))));
    assert(spec_eval(*y) == Some(Ok::<Value, Seq<char>>(Value::Int(m))));
}

/// The comparisons of integers are the strict and non-strict orders of
/// their values, so `x > x` and `x < x` are false and `x >= x`, `x <= x`
/// true; `a > b` is `b < a`, and `a >= b` is `b <= a`.
pub proof fn lemma_comparisons_order_integers(n: i64, m: i64)
    ensures
        eval_bin_op(BinOp::Lt, Value::Int(n), Value::Int(m)) == Some(Ok::<Value, Seq<char>>(Value::Bool(n < m))),
        eval_bin_op(BinOp::Gt, Value::Int(n), Value::Int(m)) == Some(Ok::<Value, Seq<char>>(Value::Bool(n > m))),
        eval_bin_op(BinOp::Le, Value::Int(n), Value::Int(m)) == Some(Ok::<Value, Seq<char>>(Value::Bool(n <= m))),
        eval_bin_op(BinOp::Ge, Value::Int(n), Value::Int(m)) == Some(Ok::<Value, Seq<char>>(Value::Bool(n >= m))),
        eval_bin_op(BinOp::Eq, Value::Int(n), Value::Int(m)) == Some(Ok::<Value, Seq<char>>(Value::Bool(n == m))),
        eval_bin_op(BinOp::Ne, Value::Int(n), Value::Int(m)) == Some(Ok::<Value, Seq<char>>(Value::Bool(n != m))),
        eval_bin_op(BinOp::Gt, Value::Int(n), Value::Int(n)) == Some(Ok::<Value, Seq<char>>(Value::Bool(false))),
        eval_bin_op(BinOp::Lt, Value::Int(n), Value::Int(n)) == Some(Ok::<Value, Seq<char>>(Value::Bool(false))),
        eval_bin_op(BinOp::Gt, Value::Int(n), Value::Int(m)) == eval_bin_op(BinOp::Lt, Value::Int(m), Value::Int(n)),
        eval_bin_op(BinOp::Ge, Value::Int(n), Value::Int(m)) == eval_bin_op(BinOp::Le, Value::Int(m), Value::Int(n)),
{
}

} // verus!
