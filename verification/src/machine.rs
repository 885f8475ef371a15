use std::rc::Rc;
use vstd::prelude::*;

use crate::ast::{node, AstData, BinOp, Type, TypeData, UnOp};
use crate::ast_typed::{tnode, AstTypedData};
use crate::codegen::{
    lemma_compile_registers, num_ops, spec_compile, spec_generate_instr, spec_llvm_type_of,
    un_op_instr, CmpOp, CompilationUnit, IType, Instr, LlvmResult, Register,
};
use crate::llvm_utils::{
    cmp_op_text,
    blocks_instrs, first_def_type, lemma_first_def_append, result_type, spec_defined_type,
};
use crate::interpreter::{div_trunc, spec_eval, Value};
use crate::typing::{annotates, bin_op_type, theorem_type_soundness, typ, value_type};

verus! {

/// What the instructions compute, as LLVM defines it for the integer
/// instructions that the code generator emits. A register holds the signed
/// reading of its bits: an `i32` lies in `[-2^31, 2^31)`, an `i1` is `0`
/// (false) or `-1` (true). `nsw` arithmetic that overflows, division by zero
/// and reading an undefined register have no defined result (`None`).
pub type Regs = Map<Register, int>;

pub open spec fn fits_i32(n: int) -> bool {
    i32::MIN <= n <= i32::MAX
}

/// The signed reading of a constant of type `t` made from `n`: its low 32
/// bits, or its low bit.
pub open spec fn const_value(n: i64, t: IType) -> int {
    match t {
        IType::I32 => (n as i32) as int,
        IType::I1 => if n % 2 == 0 { 0 } else { -1 },
    }
}

pub open spec fn operand(regs: Regs, r: LlvmResult) -> Option<int> {
    match r {
        LlvmResult::IConst(n, t) => Some(const_value(n, t)),
        LlvmResult::Register(x) => if regs.contains_key(x) { Some(regs[x]) } else { None },
    }
}

/// The `i1` result of a signed comparison.
pub open spec fn compare(op: CmpOp, a: int, b: int) -> int {
    let holds = match op {
        CmpOp::Eq => a == b,
        CmpOp::Ne => a != b,
        CmpOp::Lt => a < b,
        CmpOp::Le => a <= b,
        CmpOp::Gt => a > b,
        CmpOp::Ge => a >= b,
    };
    if holds { -1 } else { 0 }
}

pub open spec fn is_i1(a: int) -> bool {
    a == 0 || a == -1
}

/// The register an instruction defines.
pub open spec fn dest(i: Instr) -> Register {
    match i {
        Instr::Addi32(d, _, _) => d,
        Instr::Subi32(d, _, _) => d,
        Instr::Muli32(d, _, _) => d,
        Instr::Divi32(d, _, _) => d,
        Instr::Cmp(d, _, _, _, _) => d,
        Instr::Xor(d, _, _) => d,
    }
}

/// The value an instruction computes from its operand values `a` and `b`.
pub open spec fn compute(i: Instr, a: int, b: int) -> Option<int> {
    match i {
        Instr::Addi32(..) => if fits_i32(a + b) { Some(a + b) } else { None },
        Instr::Subi32(..) => if fits_i32(a - b) { Some(a - b) } else { None },
        Instr::Muli32(..) => if fits_i32(a * b) { Some(a * b) } else { None },
        Instr::Divi32(..) => if b != 0 && fits_i32(div_trunc(a, b)) {
            Some(div_trunc(a, b))
        } else {
            None
        },
        Instr::Cmp(_, op, _, _, _) => Some(compare(op, a, b)),
        Instr::Xor(..) => if is_i1(a) && is_i1(b) {
            Some(if a == b { 0 } else { -1 })
        } else {
            None
        },
    }
}

pub open spec fn operands(i: Instr) -> (LlvmResult, LlvmResult) {
    match i {
        Instr::Addi32(_, a, b) => (a, b),
        Instr::Subi32(_, a, b) => (a, b),
        Instr::Muli32(_, a, b) => (a, b),
        Instr::Divi32(_, a, b) => (a, b),
        Instr::Cmp(_, _, a, b, _) => (a, b),
        Instr::Xor(_, a, b) => (a, b),
    }
}

/// Executes one instruction.
pub open spec fn step(regs: Regs, i: Instr) -> Option<Regs> {
    match (operand(regs, operands(i).0), operand(regs, operands(i).1)) {
        (Some(a), Some(b)) => match compute(i, a, b) {
            Some(v) => Some(regs.insert(dest(i), v)),
            None => None,
        },
        _ => None,
    }
}

/// Executes a straight-line sequence of instructions.
pub open spec fn run(regs: Regs, code: Seq<Instr>) -> Option<Regs>
    decreases code.len(),
{
    if code.len() == 0 {
        Some(regs)
    } else {
        match step(regs, code[0]) {
            Some(r) => run(r, code.drop_first()),
            None => None,
        }
    }
}

/// How a register holds a value of the source language.
pub open spec fn encode(v: Value) -> int {
    match v {
        Value::Int(n) => n as int,
        Value::Bool(b) => if b { -1 } else { 0 },
    }
}

/// Every integer that `e` and its subexpressions evaluate to fits in 32 bits.
pub open spec fn values_fit_i32(e: AstData) -> bool
    decreases e,
{
    &&& (spec_eval(e) matches Some(Ok(Value::Int(n))) ==> fits_i32(n as int))
    &&& match e {
        AstData::BinOp(_, x, y) => values_fit_i32(*x) && values_fit_i32(*y),
        AstData::UnOp(_, x) => values_fit_i32(*x),
        _ => true,
    }
}

pub proof fn lemma_run_append(regs: Regs, a: Seq<Instr>, b: Seq<Instr>)
    ensures
        run(regs, a + b) == match run(regs, a) {
            Some(r) => run(r, b),
            None => None,
        },
    decreases a.len(),
{
    if a.len() == 0 {
        assert(a + b =~= b);
    } else {
        assert((a + b).drop_first() =~= a.drop_first() + b);
        if let Some(r) = step(regs, a[0]) {
            lemma_run_append(r, a.drop_first(), b);
        }
    }
}

/// Running code changes only the registers it defines.
pub proof fn lemma_run_frame(regs: Regs, code: Seq<Instr>, k: Register)
    requires
        run(regs, code) is Some,
        forall|j: int| 0 <= j < code.len() ==> dest(#[trigger] code[j]) != k,
    ensures
        run(regs, code)->Some_0.contains_key(k) == regs.contains_key(k),
        regs.contains_key(k) ==> run(regs, code)->Some_0[k] == regs[k],
    decreases code.len(),
{
    if code.len() > 0 {
        let r = step(regs, code[0])->Some_0;
        assert(dest(code[0]) != k);
        assert forall|j: int| 0 <= j < code.drop_first().len() implies dest(
            #[trigger] code.drop_first()[j],
        ) != k by {
            assert(code.drop_first()[j] == code[j + 1]);
        }
        lemma_run_frame(r, code.drop_first(), k);
    }
}

/// The code generated from a start register defines only registers from
/// that start up to the next fresh register, and its result register is one
/// of them.
pub proof fn lemma_compile_dests(e: AstTypedData, next: int)
    requires
        spec_compile(e, next).0 is Ok,
        0 <= next,
        next + num_ops(e) <= u32::MAX,
    ensures
        forall|j: int|
            0 <= j < spec_compile(e, next).0->Ok_0.1.len() ==> next <= dest(
                #[trigger] spec_compile(e, next).0->Ok_0.1[j],
            ) < spec_compile(e, next).1,
        spec_compile(e, next).0->Ok_0.0 matches LlvmResult::Register(k) ==> next <= k
            < spec_compile(e, next).1,
    decreases e,
{
    lemma_compile_registers(e, next);
    match e {
        AstTypedData::UnOp(op, x, _) => {
            lemma_compile_dests(tnode(&x), next);
            lemma_compile_registers(tnode(&x), next);
        },
        AstTypedData::BinOp(op, x, y, _) => {
            let n1 = spec_compile(tnode(&x), next).1;
            lemma_compile_registers(tnode(&x), next);
            lemma_compile_dests(tnode(&x), next);
            lemma_compile_registers(tnode(&y), n1);
            lemma_compile_dests(tnode(&y), n1);
            let c1 = spec_compile(tnode(&x), next).0->Ok_0.1;
            let c2 = spec_compile(tnode(&y), n1).0->Ok_0.1;
            let code = spec_compile(e, next).0->Ok_0.1;
            assert forall|j: int| 0 <= j < code.len() implies next <= dest(#[trigger] code[j])
                < spec_compile(e, next).1 by {
                if j < c1.len() {
                    assert(code[j] == c1[j]);
                } else if j < c1.len() + c2.len() {
                    assert(code[j] == c2[j - c1.len()]);
                }
            }
        },
        _ => {},
    }
}

/// The value held by the result of `code`, run from `regs`.
pub open spec fn result_of(regs: Regs, res: LlvmResult, code: Seq<Instr>) -> Option<int> {
    match run(regs, code) {
        Some(out) => operand(out, res),
        None => None,
    }
}

/// One step of the correctness proof: an operator applied to operands that
/// hold the values of its subexpressions computes the value of the whole.
proof fn lemma_bin_op_step(
    op: BinOp,
    x: AstData,
    y: AstData,
    regs: Regs,
    ret: Register,
    r1: LlvmResult,
    r2: LlvmResult,
    t: IType,
)
    requires
        typ(x) is Ok,
        typ(y) is Ok,
        bin_op_type(op, typ(x)->Ok_0, typ(y)->Ok_0) is Ok,
        spec_eval(x) matches Some(Ok(_)),
        spec_eval(y) matches Some(Ok(_)),
        crate::interpreter::eval_bin_op(op, spec_eval(x)->Some_0->Ok_0, spec_eval(y)->Some_0->Ok_0) matches Some(Ok(v)) && (v matches Value::Int(n) ==> fits_i32(n as int)),
        spec_eval(x)->Some_0->Ok_0 matches Value::Int(n) ==> fits_i32(n as int),
        spec_eval(y)->Some_0->Ok_0 matches Value::Int(n) ==> fits_i32(n as int),
        operand(regs, r1) == Some(encode(spec_eval(x)->Some_0->Ok_0)),
        operand(regs, r2) == Some(encode(spec_eval(y)->Some_0->Ok_0)),
        spec_generate_instr(op, ret, r1, r2, t) is Ok,
    ensures
        step(regs, spec_generate_instr(op, ret, r1, r2, t)->Ok_0) matches Some(out) && out.contains_key(ret)
            && out[ret] == encode(
            crate::interpreter::eval_bin_op(op, spec_eval(x)->Some_0->Ok_0, spec_eval(y)->Some_0->Ok_0)->Some_0->Ok_0,
        ),
{
    theorem_type_soundness(x);
    theorem_type_soundness(y);
}

pub proof fn lemma_run_single(regs: Regs, i: Instr)
    ensures
        run(regs, seq![i]) == step(regs, i),
{
    reveal_with_fuel(run, 2);
    assert(seq![i].drop_first() =~= Seq::<Instr>::empty());
}

/// Compiler correctness: the code generated for a well-typed expression
/// whose evaluation succeeds within 32-bit integers computes, from any
/// registers, the value that the evaluation gives.
pub proof fn theorem_compile_correct(te: AstTypedData, e: AstData, next: int, regs: Regs)
    requires
        annotates(te, e),
        spec_eval(e) matches Some(Ok(_)),
        values_fit_i32(e),
        spec_compile(te, next).0 is Ok,
        0 <= next,
        next + num_ops(te) <= u32::MAX,
    ensures
        result_of(regs, spec_compile(te, next).0->Ok_0.0, spec_compile(te, next).0->Ok_0.1) == Some(
            encode(spec_eval(e)->Some_0->Ok_0),
        ),
    decreases te,
{
    lemma_compile_registers(te, next);
    match (te, e) {
        (AstTypedData::UnOp(op, x, t), AstData::UnOp(op2, y)) => {
            let (tx, ey) = (tnode(&x), node(&y));
            theorem_compile_correct(tx, ey, next, regs);
            lemma_compile_registers(tx, next);
            let (rx, cx) = spec_compile(tx, next).0->Ok_0;
            let n1 = spec_compile(tx, next).1;
            let r1 = run(regs, cx)->Some_0;
            let instr = un_op_instr(op, n1 as u32, rx);
            lemma_run_append(regs, cx, seq![instr]);
            assert(spec_compile(te, next).0->Ok_0.1 == cx + seq![instr]);
            lemma_run_single(r1, instr);
            crate::typing::lemma_annotates_ty(tx, ey);
            theorem_type_soundness(ey);
            assert(operand(r1, rx) == Some(encode(spec_eval(ey)->Some_0->Ok_0)));
            assert(spec_eval(e) == crate::interpreter::eval_un_op(op, spec_eval(ey)->Some_0->Ok_0));
            assert(spec_compile(te, next).0->Ok_0.0 == LlvmResult::Register(n1 as u32));
            assert(run(regs, spec_compile(te, next).0->Ok_0.1) == step(r1, instr));
            if op is Neg {
                assert(const_value(-1i64, IType::I32) == -1);
            } else {
                assert(const_value(1i64, IType::I1) == -1);
            }
            assert(step(r1, instr) matches Some(out) && out[n1 as u32] == encode(spec_eval(e)->Some_0->Ok_0));
            assert(result_of(regs, spec_compile(te, next).0->Ok_0.0, spec_compile(te, next).0->Ok_0.1) == Some(
                encode(spec_eval(e)->Some_0->Ok_0)));
        },
        (AstTypedData::BinOp(op, x1, x2, t), AstData::BinOp(op2, y1, y2)) => {
            let (t1, t2, e1, e2) = (tnode(&x1), tnode(&x2), node(&y1), node(&y2));
            lemma_compile_registers(t1, next);
            let n1 = spec_compile(t1, next).1;
            lemma_compile_registers(t2, n1);
            let n2 = spec_compile(t2, n1).1;
            let (res1, c1) = spec_compile(t1, next).0->Ok_0;
            let (res2, c2) = spec_compile(t2, n1).0->Ok_0;
            theorem_compile_correct(t1, e1, next, regs);
            let r1 = run(regs, c1)->Some_0;
            theorem_compile_correct(t2, e2, n1, r1);
            let r2 = run(r1, c2)->Some_0;
            lemma_compile_dests(t1, next);
            lemma_compile_dests(t2, n1);
            if let LlvmResult::Register(k) = res1 {
                assert forall|j: int| 0 <= j < c2.len() implies dest(#[trigger] c2[j]) != k by {}
                lemma_run_frame(r1, c2, k);
            }
            assert(operand(r2, res1) == operand(r1, res1));
            let instr = spec_generate_instr(op, n2 as u32, res1, res2, spec_llvm_type_of(t1.ty()))->Ok_0;
            lemma_run_append(regs, c1, c2);
            lemma_run_append(regs, c1 + c2, seq![instr]);
            assert(spec_compile(te, next).0->Ok_0.1 == (c1 + c2) + seq![instr]);
            lemma_run_single(r2, instr);
            assert(values_fit_i32(e1) && values_fit_i32(e2));
            crate::typing::lemma_annotates_ty(t1, e1);
            crate::typing::lemma_annotates_ty(t2, e2);
            lemma_bin_op_step(op, e1, e2, r2, n2 as u32, res1, res2, spec_llvm_type_of(t1.ty()));
            assert(spec_compile(te, next).0->Ok_0.0 == LlvmResult::Register(n2 as u32));
            assert(run(regs, spec_compile(te, next).0->Ok_0.1) == step(r2, instr));
            assert(spec_eval(e) == crate::interpreter::eval_bin_op(op, spec_eval(e1)->Some_0->Ok_0, spec_eval(e2)->Some_0->Ok_0));
            assert(result_of(regs, spec_compile(te, next).0->Ok_0.0, spec_compile(te, next).0->Ok_0.1) == Some(
                encode(spec_eval(e)->Some_0->Ok_0)));
        },
        _ => {},
    }
}

// ---------------------------------------------------------------------------
// Registers are defined before they are used.
// ---------------------------------------------------------------------------

/// The registers that `code` defines.
pub open spec fn defs(code: Seq<Instr>) -> Set<Register> {
    Set::new(|r: Register| exists|j: int| 0 <= j < code.len() && dest(code[j]) == r)
}

/// An operand that is a constant, or a register in `defined`.
pub open spec fn operand_defined(defined: Set<Register>, r: LlvmResult) -> bool {
    match r {
        LlvmResult::IConst(..) => true,
        LlvmResult::Register(k) => defined.contains(k),
    }
}

/// Every register that an instruction of `code` reads is in `defined` or
/// defined by an earlier instruction of `code`.
pub open spec fn defines_before_use(defined: Set<Register>, code: Seq<Instr>) -> bool
    decreases code.len(),
{
    if code.len() == 0 {
        true
    } else {
        &&& operand_defined(defined, operands(code[0]).0)
        &&& operand_defined(defined, operands(code[0]).1)
        &&& defines_before_use(defined.insert(dest(code[0])), code.drop_first())
    }
}

pub proof fn lemma_defs_append(a: Seq<Instr>, b: Seq<Instr>)
    ensures
        defs(a + b) == defs(a).union(defs(b)),
{
    assert forall|r: Register| defs(a + b).contains(r) == defs(a).union(defs(b)).contains(r) by {
        if defs(a + b).contains(r) {
            let j = choose|j: int| 0 <= j < (a + b).len() && dest((a + b)[j]) == r;
            if j < a.len() {
                assert(dest(a[j]) == r);
            } else {
                assert(dest(b[j - a.len()]) == r);
            }
        }
        if defs(a).contains(r) {
            let j = choose|j: int| 0 <= j < a.len() && dest(a[j]) == r;
            assert(dest((a + b)[j]) == r);
        }
        if defs(b).contains(r) {
            let j = choose|j: int| 0 <= j < b.len() && dest(b[j]) == r;
            assert(dest((a + b)[a.len() + j]) == r);
        }
    }
    assert(defs(a + b) =~= defs(a).union(defs(b)));
}

/// Defining before use survives a larger set of defined registers, and
/// composes along concatenation.
pub proof fn lemma_defines_before_use_append(s: Set<Register>, a: Seq<Instr>, b: Seq<Instr>)
    requires
        defines_before_use(s, a),
        defines_before_use(s.union(defs(a)), b),
    ensures
        defines_before_use(s, a + b),
    decreases a.len(),
{
    if a.len() == 0 {
        assert(a + b =~= b);
        assert(s.union(defs(a)) =~= s);
    } else {
        let s1 = s.insert(dest(a[0]));
        assert((a + b).drop_first() =~= a.drop_first() + b);
        assert(defs(a) =~= defs(a.drop_first()).insert(dest(a[0]))) by {
            assert forall|r: Register| defs(a).contains(r) implies defs(a.drop_first()).insert(dest(a[0])).contains(r) by {
                let j = choose|j: int| 0 <= j < a.len() && dest(a[j]) == r;
                if j > 0 {
                    assert(dest(a.drop_first()[j - 1]) == r);
                }
            }
            assert forall|r: Register| defs(a.drop_first()).contains(r) implies defs(a).contains(r) by {
                let j = choose|j: int| 0 <= j < a.drop_first().len() && dest(a.drop_first()[j]) == r;
                assert(dest(a[j + 1]) == r);
            }
            assert(defs(a).contains(dest(a[0])));
        }
        assert(s1.union(defs(a.drop_first())) =~= s.union(defs(a)));
        lemma_defines_before_use_append(s1, a.drop_first(), b);
    }
}

/// Code that is well defined after `s` splits into a prefix well defined
/// after `s` and a rest well defined after the prefix's definitions too.
pub proof fn lemma_defines_before_use_split(s: Set<Register>, a: Seq<Instr>, b: Seq<Instr>)
    requires
        defines_before_use(s, a + b),
    ensures
        defines_before_use(s, a),
        defines_before_use(s.union(defs(a)), b),
    decreases a.len(),
{
    if a.len() == 0 {
        assert(a + b =~= b);
        assert(s.union(defs(a)) =~= s);
    } else {
        let s1 = s.insert(dest(a[0]));
        assert((a + b).drop_first() =~= a.drop_first() + b);
        assert((a + b)[0] == a[0]);
        lemma_defines_before_use_split(s1, a.drop_first(), b);
        lemma_defs_first(a);
        assert(s1.union(defs(a.drop_first())) =~= s.union(defs(a)));
    }
}

/// The definitions of a non-empty sequence: its first destination and those of the rest.
pub proof fn lemma_defs_first(a: Seq<Instr>)
    requires
        a.len() > 0,
    ensures
        defs(a) == defs(a.drop_first()).insert(dest(a[0])),
{
    assert forall|r: Register| defs(a).contains(r) implies defs(a.drop_first()).insert(dest(a[0])).contains(r) by {
        let j = choose|j: int| 0 <= j < a.len() && dest(a[j]) == r;
        if j > 0 {
            assert(dest(a.drop_first()[j - 1]) == r);
        }
    }
    assert forall|r: Register| defs(a.drop_first()).contains(r) implies defs(a).contains(r) by {
        let j = choose|j: int| 0 <= j < a.drop_first().len() && dest(a.drop_first()[j]) == r;
        assert(dest(a[j + 1]) == r);
    }
    assert(defs(a).contains(dest(a[0])));
    assert(defs(a) =~= defs(a.drop_first()).insert(dest(a[0])));
}

/// The code generated for any expression reads only registers that it
/// defined itself, and its result is a constant or one of its registers.
pub proof fn theorem_compile_defines_before_use(e: AstTypedData, next: int, s: Set<Register>)
    requires
        spec_compile(e, next).0 is Ok,
    ensures
        defines_before_use(s, spec_compile(e, next).0->Ok_0.1),
        operand_defined(s.union(defs(spec_compile(e, next).0->Ok_0.1)), spec_compile(e, next).0->Ok_0.0),
    decreases e,
{
    match e {
        AstTypedData::UnOp(op, x, _) => {
            let tx = tnode(&x);
            let n1 = spec_compile(tx, next).1;
            let (rx, cx) = spec_compile(tx, next).0->Ok_0;
            theorem_compile_defines_before_use(tx, next, s);
            let instr = un_op_instr(op, n1 as u32, rx);
            let s1 = s.union(defs(cx));
            assert(defines_before_use(s1, seq![instr])) by {
                reveal_with_fuel(defines_before_use, 2);
                assert(seq![instr].drop_first() =~= Seq::<Instr>::empty());
            }
            lemma_defines_before_use_append(s, cx, seq![instr]);
            assert(cx.push(instr) =~= cx + seq![instr]);
            lemma_defs_append(cx, seq![instr]);
            assert(defs(seq![instr]).contains(n1 as u32)) by {
                assert(dest(seq![instr][0]) == n1 as u32);
            }
        },
        AstTypedData::BinOp(op, x, y, _) => {
            let (t1, t2) = (tnode(&x), tnode(&y));
            let n1 = spec_compile(t1, next).1;
            let n2 = spec_compile(t2, n1).1;
            let (res1, c1) = spec_compile(t1, next).0->Ok_0;
            let (res2, c2) = spec_compile(t2, n1).0->Ok_0;
            let s1 = s.union(defs(c1));
            theorem_compile_defines_before_use(t1, next, s);
            theorem_compile_defines_before_use(t2, n1, s1);
            let s2 = s1.union(defs(c2));
            let instr = spec_generate_instr(op, n2 as u32, res1, res2, spec_llvm_type_of(t1.ty()))->Ok_0;
            assert(operand_defined(s2, res1)) by {
                if let LlvmResult::Register(k) = res1 {
                    assert(s1.contains(k));
                }
            }
            assert(defines_before_use(s2, seq![instr])) by {
                reveal_with_fuel(defines_before_use, 2);
                assert(seq![instr].drop_first() =~= Seq::<Instr>::empty());
            }
            lemma_defines_before_use_append(s1, c2, seq![instr]);
            lemma_defs_append(c1, c2);
            assert(s2 =~= s.union(defs(c1 + c2)));
            lemma_defines_before_use_append(s, c1, c2 + seq![instr]);
            assert((c1 + c2).push(instr) =~= c1 + (c2 + seq![instr]));
            lemma_defs_append(c1 + c2, seq![instr]);
            assert((c1 + c2).push(instr) =~= (c1 + c2) + seq![instr]);
            assert(defs(seq![instr]).contains(n2 as u32)) by {
                assert(dest(seq![instr][0]) == n2 as u32);
            }
        },
        _ => {},
    }
}

// ---------------------------------------------------------------------------
// The type of the result of compiled code.
// ---------------------------------------------------------------------------

proof fn lemma_first_def_absent(code: Seq<Instr>, reg: Register)
    requires
        forall|j: int| 0 <= j < code.len() ==> dest(#[trigger] code[j]) != reg,
    ensures
        first_def_type(code, reg) is None,
    decreases code.len(),
{
    if code.len() > 0 {
        assert(dest(code[0]) != reg);
        assert(spec_defined_type(code[0]).0 == dest(code[0]));
        assert forall|j: int| 0 <= j < code.drop_first().len() implies dest(
            #[trigger] code.drop_first()[j],
        ) != reg by {
            assert(code.drop_first()[j] == code[j + 1]);
        }
        lemma_first_def_absent(code.drop_first(), reg);
    }
}

/// The type that the searched instructions give to the register `k` that the
/// last instruction of `code.push(i)` defines, when no earlier one defines it.
proof fn lemma_first_def_last(code: Seq<Instr>, i: Instr)
    requires
        forall|j: int| 0 <= j < code.len() ==> dest(#[trigger] code[j]) != dest(i),
    ensures
        first_def_type(code.push(i), dest(i)) == Some(spec_defined_type(i).1),
{
    lemma_first_def_absent(code, dest(i));
    lemma_first_def_append(code, seq![i], dest(i));
    assert(code.push(i) =~= code + seq![i]);
    assert(spec_defined_type(i).0 == dest(i));
    assert(seq![i].drop_first() =~= Seq::<Instr>::empty());
}

/// For well-typed code generated from register `next` on, the type that the
/// result's constant or defining instruction gives it is the target type of
/// the expression.
proof fn lemma_compile_result_type(te: AstTypedData, e: AstData, next: int)
    requires
        annotates(te, e),
        spec_compile(te, next).0 is Ok,
        0 <= next,
        next + num_ops(te) <= u32::MAX,
    ensures
        ({
            let (res, code) = spec_compile(te, next).0->Ok_0;
            match res {
                LlvmResult::IConst(_, t) => t == spec_llvm_type_of(te.ty()),
                LlvmResult::Register(k) => first_def_type(code, k) == Some(spec_llvm_type_of(te.ty())),
            }
        }),
{
    lemma_compile_registers(te, next);
    match (te, e) {
        (AstTypedData::UnOp(op, x, t), AstData::UnOp(_, y)) => {
            let tx = tnode(&x);
            lemma_compile_registers(tx, next);
            lemma_compile_dests(tx, next);
            let n1 = spec_compile(tx, next).1;
            let (rx, cx) = spec_compile(tx, next).0->Ok_0;
            let instr = un_op_instr(op, n1 as u32, rx);
            assert forall|j: int| 0 <= j < cx.len() implies dest(#[trigger] cx[j]) != dest(instr) by {
                assert(next <= dest(spec_compile(tx, next).0->Ok_0.1[j]) < n1);
            }
            lemma_first_def_last(cx, instr);
        },
        (AstTypedData::BinOp(op, x, y, t), AstData::BinOp(_, ex, ey)) => {
            let (t1, t2) = (tnode(&x), tnode(&y));
            lemma_compile_registers(t1, next);
            lemma_compile_dests(t1, next);
            let n1 = spec_compile(t1, next).1;
            lemma_compile_registers(t2, n1);
            lemma_compile_dests(t2, n1);
            let n2 = spec_compile(t2, n1).1;
            let (res1, c1) = spec_compile(t1, next).0->Ok_0;
            let (res2, c2) = spec_compile(t2, n1).0->Ok_0;
            let instr = spec_generate_instr(op, n2 as u32, res1, res2, spec_llvm_type_of(t1.ty()))->Ok_0;
            let code = c1 + c2;
            assert(dest(instr) == n2);
            assert forall|j: int| 0 <= j < code.len() implies dest(#[trigger] code[j]) != dest(instr) by {
                if j < c1.len() {
                    assert(code[j] == c1[j]);
                    assert(dest(spec_compile(t1, next).0->Ok_0.1[j]) < n1);
                } else {
                    assert(code[j] == c2[j - c1.len()]);
                    assert(dest(spec_compile(t2, n1).0->Ok_0.1[j - c1.len()]) < n2);
                }
            }
            lemma_first_def_last(code, instr);
        },
        _ => {},
    }
}

/// The result of a compiled well-typed expression has the target type of
/// the expression's type: an integer expression leaves an `i32`, a boolean
/// one an `i1`, and the unit always defines its result register, so that
/// `try_type_of_result` finds it.
pub proof fn theorem_compiled_result_type(te: AstTypedData, e: AstData, cu: CompilationUnit)
    requires
        annotates(te, e),
        num_ops(te) <= u32::MAX,
        spec_compile(te, 0).0 matches Ok((result, code)) && cu.result == result && cu.instructions@ == code
            && cu.blocks@.len() == 0,
    ensures
        result_type(cu) == Some(spec_llvm_type_of(te.ty())),
{
    lemma_compile_result_type(te, e, 0);
    assert(blocks_instrs(cu.blocks@) =~= Seq::<Instr>::empty());
    assert(cu.instructions@ + blocks_instrs(cu.blocks@) =~= cu.instructions@);
}

// ---------------------------------------------------------------------------
// The shape of the code for an operator node.
// ---------------------------------------------------------------------------

/// The code for a unary operator is the code of its operand followed by one
/// instruction, `mul` by `-1` for `-` and `xor` with `true` for `not`, into a
/// register that no instruction of the operand's code defines.
pub proof fn lemma_compile_un_op_shape(op: UnOp, x: AstTypedData, t: Type, next: int)
    requires
        0 <= next,
        next + 1 + num_ops(x) <= u32::MAX,
        spec_compile(x, next).0 is Ok,
    ensures
        ({
            let (rx, cx) = spec_compile(x, next).0->Ok_0;
            let k = spec_compile(x, next).1;
            let e = AstTypedData::UnOp(op, Rc::new(x), t);
            &&& spec_compile(e, next).0 == Ok::<(LlvmResult, Seq<Instr>), Seq<char>>(
                (LlvmResult::Register(k as u32), cx.push(un_op_instr(op, k as u32, rx))),
            )
            &&& forall|j: int| 0 <= j < cx.len() ==> dest(#[trigger] cx[j]) != k as u32
        }),
{
    lemma_compile_registers(x, next);
    lemma_compile_dests(x, next);
    let cx = spec_compile(x, next).0->Ok_0.1;
    let k = spec_compile(x, next).1;
    assert forall|j: int| 0 <= j < cx.len() implies dest(#[trigger] cx[j]) != k as u32 by {
        assert(dest(spec_compile(x, next).0->Ok_0.1[j]) < k);
    }
}

/// The code for a binary operator is the code of its left operand, then
/// that of its right operand, then the one instruction for the operator on
/// their results, into a register that no instruction of either operand
/// defines; the logical operators have no code.
pub proof fn lemma_compile_bin_op_shape(op: BinOp, x: AstTypedData, y: AstTypedData, t: Type, next: int)
    requires
        0 <= next,
        next + 1 + num_ops(x) + num_ops(y) <= u32::MAX,
        spec_compile(x, next).0 is Ok,
        spec_compile(y, spec_compile(x, next).1).0 is Ok,
    ensures
        ({
            let (r1, c1) = spec_compile(x, next).0->Ok_0;
            let n1 = spec_compile(x, next).1;
            let (r2, c2) = spec_compile(y, n1).0->Ok_0;
            let k = spec_compile(y, n1).1;
            let e = AstTypedData::BinOp(op, Rc::new(x), Rc::new(y), t);
            &&& spec_compile(e, next).0 == match spec_generate_instr(op, k as u32, r1, r2, spec_llvm_type_of(x.ty())) {
                Ok(i) => Ok::<(LlvmResult, Seq<Instr>), Seq<char>>((LlvmResult::Register(k as u32), (c1 + c2).push(i))),
                Err(m) => Err(m),
            }
            &&& forall|j: int| 0 <= j < (c1 + c2).len() ==> dest(#[trigger] (c1 + c2)[j]) != k as u32
        }),
{
    lemma_compile_registers(x, next);
    lemma_compile_dests(x, next);
    let n1 = spec_compile(x, next).1;
    lemma_compile_registers(y, n1);
    lemma_compile_dests(y, n1);
    let c1 = spec_compile(x, next).0->Ok_0.1;
    let c2 = spec_compile(y, n1).0->Ok_0.1;
    let k = spec_compile(y, n1).1;
    assert forall|j: int| 0 <= j < (c1 + c2).len() implies dest(#[trigger] (c1 + c2)[j]) != k as u32 by {
        if j < c1.len() {
            assert((c1 + c2)[j] == c1[j]);
            assert(dest(spec_compile(x, next).0->Ok_0.1[j]) < n1);
        } else {
            assert((c1 + c2)[j] == c2[j - c1.len()]);
            assert(dest(spec_compile(y, n1).0->Ok_0.1[j - c1.len()]) < k);
        }
    }
}

// ---------------------------------------------------------------------------
// What a comparison instruction decides.
// ---------------------------------------------------------------------------

/// The instruction generated for a comparison operator decides that very
/// comparison on the signed readings of its operands, giving `i1` true
/// (`-1`) or false (`0`): `<`, `>` strict, `<=`, `>=` not, whatever the
/// operands' type.
pub proof fn lemma_comparison_instructions(ret: Register, r1: LlvmResult, r2: LlvmResult, t: IType, a: int, b: int)
    ensures
        compute(spec_generate_instr(BinOp::Lt, ret, r1, r2, t)->Ok_0, a, b) == Some(if a < b { -1int } else { 0 }),
        compute(spec_generate_instr(BinOp::Gt, ret, r1, r2, t)->Ok_0, a, b) == Some(if a > b { -1int } else { 0 }),
        compute(spec_generate_instr(BinOp::Le, ret, r1, r2, t)->Ok_0, a, b) == Some(if a <= b { -1int } else { 0 }),
        compute(spec_generate_instr(BinOp::Ge, ret, r1, r2, t)->Ok_0, a, b) == Some(if a >= b { -1int } else { 0 }),
        compute(spec_generate_instr(BinOp::Eq, ret, r1, r2, t)->Ok_0, a, b) == Some(if a == b { -1int } else { 0 }),
        compute(spec_generate_instr(BinOp::Ne, ret, r1, r2, t)->Ok_0, a, b) == Some(if a != b { -1int } else { 0 }),
        compute(spec_generate_instr(BinOp::Gt, ret, r1, r2, t)->Ok_0, a, a) == Some(0int),
{
}

/// The listing names each comparison by the LLVM predicate that decides it:
/// `eq`, `ne`, `slt`, `sle`, `sgt` or `sge` as the comparison the
/// instruction computes is `==`, `!=`, `<`, `<=`, `>` or `>=` on the signed
/// readings; so distinct comparisons are printed differently.
pub proof fn lemma_predicate_text(op: CmpOp, other: CmpOp, a: int, b: int)
    ensures
        cmp_op_text(op) == "eq"@ || cmp_op_text(op) == "ne"@ || cmp_op_text(op) == "slt"@ || cmp_op_text(op)
            == "sle"@ || cmp_op_text(op) == "sgt"@ || cmp_op_text(op) == "sge"@,
        cmp_op_text(op) == "eq"@ ==> (compare(op, a, b) == -1 <==> a == b),
        cmp_op_text(op) == "ne"@ ==> (compare(op, a, b) == -1 <==> a != b),
        cmp_op_text(op) == "slt"@ ==> (compare(op, a, b) == -1 <==> a < b),
        cmp_op_text(op) == "sle"@ ==> (compare(op, a, b) == -1 <==> a <= b),
        cmp_op_text(op) == "sgt"@ ==> (compare(op, a, b) == -1 <==> a > b),
        cmp_op_text(op) == "sge"@ ==> (compare(op, a, b) == -1 <==> a >= b),
        op != other ==> cmp_op_text(op) != cmp_op_text(other),
{
    reveal_strlit("eq");
    reveal_strlit("ne");
    reveal_strlit("slt");
    reveal_strlit("sle");
    reveal_strlit("sgt");
    reveal_strlit("sge");
    assert("eq"@[0] == 'e' && "eq"@.len() == 2);
    assert("ne"@[0] == 'n' && "ne"@.len() == 2);
    assert("slt"@[1] == 'l' && "slt"@[2] == 't' && "slt"@.len() == 3);
    assert("sle"@[1] == 'l' && "sle"@[2] == 'e' && "sle"@.len() == 3);
    assert("sgt"@[1] == 'g' && "sgt"@[2] == 't' && "sgt"@.len() == 3);
    assert("sge"@[1] == 'g' && "sge"@[2] == 'e' && "sge"@.len() == 3);
}

} // verus!
