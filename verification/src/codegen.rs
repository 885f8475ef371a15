use std::rc::Rc;
use vstd::prelude::*;

use crate::ast::{BinOp, Symbol, Type, TypeData, UnOp};
use crate::ast_typed::{tnode, AstTyped, AstTypedData};
use crate::environment::Env;

verus! {

pub type Register = u32;

pub type Label = u32;

pub type FnName = Symbol;

pub type StructName = Symbol;

/// Integer types of the target.
#[derive(Debug, Clone, Copy, PartialEq, Eq, Structural)]
pub enum IType {
    I32,
    I1,
}

/// Comparison predicates (signed).
#[derive(Debug, Clone, Copy, PartialEq, Eq, Structural)]
pub enum CmpOp {
    Eq,
    Ne,
    Lt,
    Le,
    Gt,
    Ge,
}

/// An instruction operand: a constant of a type, or a register.
#[derive(Debug, Clone, Copy, PartialEq, Eq, Structural)]
pub enum LlvmResult {
    IConst(i64, IType),
    Register(Register),
}

/// Instructions; the first field is the register they define.
#[derive(Debug, Clone, Copy, PartialEq, Eq, Structural)]
pub enum Instr {
    Addi32(Register, LlvmResult, LlvmResult),
    Subi32(Register, LlvmResult, LlvmResult),
    Muli32(Register, LlvmResult, LlvmResult),
    Divi32(Register, LlvmResult, LlvmResult),
    Cmp(Register, CmpOp, LlvmResult, LlvmResult, IType),
    Xor(Register, LlvmResult, LlvmResult),  // only for i1
}

/// A finished basic block.
pub struct Block {
    pub label: Label,
    pub instructions: Vec<Instr>,
}

pub struct Struct {
    pub name: StructName,
    pub fields: Vec<(Symbol, IType)>,
}

/// The code produced for an expression: the operand that holds its value,
/// the label and instructions of the block still open, and the finished blocks.
pub struct CompilationUnit {
    pub result: LlvmResult,
    pub label: Label,
    pub instructions: Vec<Instr>,
    pub blocks: Vec<Block>,
}

impl CompilationUnit {
    pub fn new(result: LlvmResult, label: Label, instructions: Vec<Instr>, blocks: Vec<Block>) -> (res:
        Self)
        ensures
            res.result == result,
            res.label == label,
            res.instructions == instructions,
            res.blocks == blocks,
    {
        CompilationUnit { result, label, instructions, blocks }
    }
}

/// Counters of fresh registers and labels, one pair per open scope.
pub struct RegisterStack {
    scopes: Vec<(Register, Label)>,
}

impl View for RegisterStack {
    type V = Seq<(Register, Label)>;

    closed spec fn view(&self) -> Seq<(Register, Label)> {
        self.scopes@
    }
}

impl RegisterStack {
    /// One open scope whose counters start at 0.
    pub fn new() -> (res: Self)
        ensures
            res@ == seq![(0u32, 0u32)],
    {
        let mut scopes = Vec::new();
        scopes.push((0, 0));
        RegisterStack { scopes }
    }

    /// The next register of the innermost scope.
    pub fn new_reg(&mut self) -> (reg: Register)
        requires
            old(self)@.len() > 0,
            old(self)@.last().0 < u32::MAX,
        ensures
            reg == old(self)@.last().0,
            final(self)@ == old(self)@.update(
                old(self)@.len() - 1,
                ((reg + 1) as u32, old(self)@.last().1),
            ),
    {
        let i = self.scopes.len() - 1;
        let (reg, label) = self.scopes[i];
        self.scopes.set(i, (reg + 1, label));
        reg
    }

    /// The next label of the innermost scope.
    pub fn new_label(&mut self) -> (label: Label)
        requires
            old(self)@.len() > 0,
            old(self)@.last().1 < u32::MAX,
        ensures
            label == old(self)@.last().1,
            final(self)@ == old(self)@.update(
                old(self)@.len() - 1,
                (old(self)@.last().0, (label + 1) as u32),
            ),
    {
        let i = self.scopes.len() - 1;
        let (reg, label) = self.scopes[i];
        self.scopes.set(i, (reg, label + 1));
        label
    }

    /// Opens a scope whose counters start at 0.
    pub fn reg_begin_scope(&mut self)
        ensures
            final(self)@ == old(self)@.push((0u32, 0u32)),
    {
        self.scopes.push((0, 0));
    }

    /// Closes the innermost scope, if any.
    pub fn reg_end_scope(&mut self)
        ensures
            final(self)@ == if old(self)@.len() > 0 {
                old(self)@.drop_last()
            } else {
                old(self)@
            },
    {
        let _ = self.scopes.pop();
    }

    /// The next register of the innermost scope.
    pub open spec fn next_reg(self) -> int {
        self@.last().0 as int
    }
}

/// Opening a scope and closing it again leaves the counters as they were;
/// a scope just opened numbers its registers and labels from 0.
pub proof fn lemma_scope_round_trip(scopes: Seq<(Register, Label)>)
    ensures
        scopes.push((0u32, 0u32)).drop_last() == scopes,
        scopes.push((0u32, 0u32)).last() == (0u32, 0u32),
{
    assert(scopes.push((0u32, 0u32)).drop_last() =~= scopes);
}

/// The target type of a source type.
pub open spec fn spec_llvm_type_of(t: TypeData) -> IType {
    match t {
        TypeData::Int => IType::I32,
        TypeData::Bool => IType::I1,
    }
}

pub fn llvm_type_of(t: &Type) -> (res: IType)
    ensures
        res == spec_llvm_type_of(**t),
{
    match &**t {
        TypeData::Int => IType::I32,
        TypeData::Bool => IType::I1,
    }
}

pub open spec fn not_one_instruction() -> Seq<char> {
    "Not a binary operation that maps to one LLVM instruction"@
}

/// The instruction that computes `op` into `ret` from operands of type `t`;
/// a comparison records `t`, the type of its operands. The logical operators
/// have none.
pub open spec fn spec_generate_instr(op: BinOp, ret: Register, r1: LlvmResult, r2: LlvmResult, t: IType) -> Result<
    Instr,
    Seq<char>,
> {
    match op {
        BinOp::Add => Ok(Instr::Addi32(ret, r1, r2)),
        BinOp::Sub => Ok(Instr::Subi32(ret, r1, r2)),
        BinOp::Mul => Ok(Instr::Muli32(ret, r1, r2)),
        BinOp::Div => Ok(Instr::Divi32(ret, r1, r2)),
        BinOp::Eq => Ok(Instr::Cmp(ret, CmpOp::Eq, r1, r2, t)),
        BinOp::Ne => Ok(Instr::Cmp(ret, CmpOp::Ne, r1, r2, t)),
        BinOp::Lt => Ok(Instr::Cmp(ret, CmpOp::Lt, r1, r2, t)),
        BinOp::Le => Ok(Instr::Cmp(ret, CmpOp::Le, r1, r2, t)),
        BinOp::Gt => Ok(Instr::Cmp(ret, CmpOp::Gt, r1, r2, t)),
        BinOp::Ge => Ok(Instr::Cmp(ret, CmpOp::Ge, r1, r2, t)),
        BinOp::And | BinOp::Or => Err(not_one_instruction()),
    }
}

pub fn generate_instr(op: &BinOp, ret: Register, r1: LlvmResult, r2: LlvmResult, t: IType) -> (res: Result<
    Instr,
    String,
>)
    ensures
        match res {
            Ok(i) => spec_generate_instr(*op, ret, r1, r2, t) == Ok::<Instr, Seq<char>>(i),
            Err(m) => spec_generate_instr(*op, ret, r1, r2, t) == Err::<Instr, Seq<char>>(m@),
        },
{
    match op {
        BinOp::Add => Ok(Instr::Addi32(ret, r1, r2)),
        BinOp::Sub => Ok(Instr::Subi32(ret, r1, r2)),
        BinOp::Mul => Ok(Instr::Muli32(ret, r1, r2)),
        BinOp::Div => Ok(Instr::Divi32(ret, r1, r2)),
        BinOp::Eq => Ok(Instr::Cmp(ret, CmpOp::Eq, r1, r2, t)),
        BinOp::Ne => Ok(Instr::Cmp(ret, CmpOp::Ne, r1, r2, t)),
        BinOp::Lt => Ok(Instr::Cmp(ret, CmpOp::Lt, r1, r2, t)),
        BinOp::Le => Ok(Instr::Cmp(ret, CmpOp::Le, r1, r2, t)),
        BinOp::Gt => Ok(Instr::Cmp(ret, CmpOp::Gt, r1, r2, t)),
        BinOp::Ge => Ok(Instr::Cmp(ret, CmpOp::Ge, r1, r2, t)),
        _ => Err(String::from_str("Not a binary operation that maps to one LLVM instruction")),
    }
}

/// The instruction that computes a unary operator into `ret`.
pub open spec fn un_op_instr(op: UnOp, ret: Register, r: LlvmResult) -> Instr {
    match op {
        UnOp::Neg => Instr::Muli32(ret, r, LlvmResult::IConst(-1i64, IType::I32)),
        UnOp::Not => Instr::Xor(ret, r, LlvmResult::IConst(1i64, IType::I1)),
    }
}

/// Number of operator nodes of a tree: the registers its code takes at most.
pub open spec fn num_ops(e: AstTypedData) -> nat
    decreases e,
{
    match e {
        AstTypedData::Num(_) => 0,
        AstTypedData::Bool(_) => 0,
        AstTypedData::UnOp(_, x, _) => 1 + num_ops(*x),
        AstTypedData::BinOp(_, x, y, _) => 1 + num_ops(*x) + num_ops(*y),
    }
}

/// What the code generator emits for `e` when its next fresh register is
/// `next`: the operand holding the value and the instructions that compute
/// it (or the error), paired with the next fresh register afterwards.
/// Operands are compiled left to right, each operator taking the next
/// register after its operands.
pub open spec fn spec_compile(e: AstTypedData, next: int) -> (Result<(LlvmResult, Seq<Instr>), Seq<char>>, int)
    decreases e,
{
    match e {
        AstTypedData::Num(n) => (Ok((LlvmResult::IConst(n, IType::I32), Seq::empty())), next),
        AstTypedData::Bool(b) => (
            Ok((LlvmResult::IConst(if b { 1 } else { 0 }, IType::I1), Seq::empty())),
            next,
        ),
        AstTypedData::UnOp(op, x, _) => {
            let (r, n1) = spec_compile(*x, next);
            match r {
                Ok((res, code)) => (
                    Ok((LlvmResult::Register(n1 as u32), code.push(un_op_instr(op, n1 as u32, res)))),
                    n1 + 1,
                ),
                Err(m) => (Err(m), n1),
            }
        },
        AstTypedData::BinOp(op, x, y, _) => {
            let (r1, n1) = spec_compile(*x, next);
            match r1 {
                Ok((res1, code1)) => {
                    let (r2, n2) = spec_compile(*y, n1);
                    match r2 {
                        Ok((res2, code2)) => match spec_generate_instr(op, n2 as u32, res1, res2, spec_llvm_type_of((*x).ty())) {
                            Ok(i) => (Ok((LlvmResult::Register(n2 as u32), (code1 + code2).push(i))), n2 + 1),
                            Err(m) => (Err(m), n2 + 1),
                        },
                        Err(m) => (Err(m), n2),
                    }
                },
                Err(m) => (Err(m), n1),
            }
        },
    }
}

/// Code generation takes no more registers than the tree has operators.
pub proof fn lemma_compile_registers(e: AstTypedData, next: int)
    ensures
        next <= spec_compile(e, next).1 <= next + num_ops(e),
        spec_compile(e, next).0 is Ok ==> spec_compile(e, next).1 == next + num_ops(e),
    decreases e,
{
    match e {
        AstTypedData::UnOp(_, x, _) => {
            lemma_compile_registers(tnode(&x), next);
        },
        AstTypedData::BinOp(_, x, y, _) => {
            lemma_compile_registers(tnode(&x), next);
            lemma_compile_registers(tnode(&y), spec_compile(tnode(&x), next).1);
        },
        _ => {},
    }
}

/// What `compile_internal` promises: `regs` ends with the register counter
/// moved as `spec_compile` says, and a unit that extends the open block.
pub open spec fn compile_internal_post(
    e: AstTypedData,
    l0: Label,
    b0: Seq<Instr>,
    blocks: Seq<Block>,
    old_regs: Seq<(Register, Label)>,
    new_regs: Seq<(Register, Label)>,
    res: Result<CompilationUnit, String>,
) -> bool {
    let (r, n) = spec_compile(e, old_regs.last().0 as int);
    &&& new_regs == old_regs.update(old_regs.len() - 1, (n as u32, old_regs.last().1))
    &&& match res {
        Ok(cu) => r matches Ok((result, code)) && cu.result == result && cu.label == l0
            && cu.instructions@ == b0 + code && cu.blocks@ == blocks,
        Err(m) => r == Err::<(LlvmResult, Seq<Instr>), Seq<char>>(m@),
    }
}

/// Appends the code of `e` to the open block `l0`/`b0`.
fn compile_internal(
    e: &AstTyped,
    l0: Label,
    b0: Vec<Instr>,
    env: Rc<Env<Symbol, (LlvmResult, Type)>>,
    blocks: Vec<Block>,
    regs: &mut RegisterStack,
) -> (res: Result<CompilationUnit, String>)
    requires
        old(regs)@.len() > 0,
        old(regs).next_reg() + num_ops(**e) <= u32::MAX,
    ensures
        compile_internal_post(**e, l0, b0@, blocks@, old(regs)@, final(regs)@, res),
    decreases **e, 1nat,
{
    proof {
        lemma_compile_registers(tnode(e), old(regs).next_reg());
    }
    match &**e {
        AstTypedData::Num(n) => {
            let res = CompilationUnit::new(LlvmResult::IConst(*n, IType::I32), l0, b0, blocks);
            proof {
                assert(b0@ + Seq::<Instr>::empty() =~= b0@);
                assert(regs@ =~= old(regs)@.update(old(regs)@.len() - 1, (old(regs)@.last().0, old(regs)@.last().1)));
            }
            Ok(res)
        },
        AstTypedData::Bool(b) => {
            let res = CompilationUnit::new(
                LlvmResult::IConst(if *b { 1 } else { 0 }, IType::I1),
                l0,
                b0,
                blocks,
            );
            proof {
                assert(b0@ + Seq::<Instr>::empty() =~= b0@);
                assert(regs@ =~= old(regs)@.update(old(regs)@.len() - 1, (old(regs)@.last().0, old(regs)@.last().1)));
            }
            Ok(res)
        },
        AstTypedData::UnOp(op, x, _) => {
            let cu = compile_internal(x, l0, b0, env, blocks, regs)?;
            let ghost mid = regs@;
            let ret = regs.new_reg();
            let mut instructions = cu.instructions;
            let instr = match op {
                UnOp::Neg => Instr::Muli32(ret, cu.result, LlvmResult::IConst(-1, IType::I32)),
                UnOp::Not => Instr::Xor(ret, cu.result, LlvmResult::IConst(1, IType::I1)),
            };
            instructions.push(instr);
            let res = CompilationUnit::new(LlvmResult::Register(ret), cu.label, instructions, cu.blocks);
            proof {
                let (r, n1) = spec_compile(tnode(x), old(regs).next_reg());
                assert(r is Ok);
                assert(regs@ =~= old(regs)@.update(old(regs)@.len() - 1, ((n1 + 1) as u32, old(regs)@.last().1)));
                assert(res.instructions@ =~= b0@ + r->Ok_0.1.push(instr));
            }
            Ok(res)
        },
        AstTypedData::BinOp(..) => compile_bin_op(e, l0, b0, env, blocks, regs),
    }
}

fn compile_bin_op(
    e: &AstTyped,
    l0: Label,
    b0: Vec<Instr>,
    env: Rc<Env<Symbol, (LlvmResult, Type)>>,
    blocks: Vec<Block>,
    regs: &mut RegisterStack,
) -> (res: Result<CompilationUnit, String>)
    requires
        old(regs)@.len() > 0,
        old(regs).next_reg() + num_ops(**e) <= u32::MAX,
        (**e) is BinOp,
    ensures
        compile_internal_post(**e, l0, b0@, blocks@, old(regs)@, final(regs)@, res),
    decreases **e, 0nat,
{
    if let AstTypedData::BinOp(op, e1, e2, _t) = &**e {
        let ghost start = old(regs)@;
        let ghost last = (start.len() - 1) as int;
        proof {
            lemma_compile_registers(tnode(e1), old(regs).next_reg());
        }
        let cu_1 = compile_internal(e1, l0, b0, crate::util::share(&env), blocks, regs)?;
        let ghost (r1, n1) = spec_compile(tnode(e1), start.last().0 as int);
        proof {
            lemma_compile_registers(tnode(e2), regs.next_reg());
        }
        let ghost mid = regs@;
        let r = compile_internal(e2, cu_1.label, cu_1.instructions, env, cu_1.blocks, regs);
        let ghost (r2, n2) = spec_compile(tnode(e2), n1);
        let mut cu_2 = match r {
            Ok(cu) => cu,
            Err(m) => {
                proof {
                    assert(regs@ =~= start.update(last, (n2 as u32, start.last().1)));
                }
                return Err(m);
            },
        };
        let ret = regs.new_reg();
        proof {
            assert(regs@ =~= start.update(last, ((n2 + 1) as u32, start.last().1)));
        }
        let t1 = llvm_type_of(&e1.type_of());
        let instr = generate_instr(op, ret, cu_1.result, cu_2.result, t1)?;
        cu_2.instructions.push(instr);
        let res = CompilationUnit::new(LlvmResult::Register(ret), cu_2.label, cu_2.instructions, cu_2.blocks);
        proof {
            assert(res.instructions@ =~= b0@ + (r1->Ok_0.1 + r2->Ok_0.1).push(instr));
        }
        Ok(res)
    } else {
        Err(String::from_str("Compile internal error: This should not happen."))
    }
}

/// The number of operator nodes of `e`, or `cap` if it has more.
fn count_ops(e: &AstTyped, cap: u64) -> (n: u64)
    ensures
        n == if num_ops(**e) < cap { num_ops(**e) } else { cap as nat },
    decreases **e,
{
    match &**e {
        AstTypedData::Num(_) | AstTypedData::Bool(_) => 0,
        AstTypedData::UnOp(_, x, _) => {
            let a = count_ops(x, cap);
            if a < cap { a + 1 } else { cap }
        },
        AstTypedData::BinOp(_, x, y, _) => {
            let a = count_ops(x, cap);
            let b = count_ops(y, cap);
            if a < cap && b < cap && a < cap - b { a + b + 1 } else { cap }
        },
    }
}

/// Whether `regs` has an open scope with fresh registers enough for every
/// operator of `e`.
pub fn has_registers_for(regs: &RegisterStack, e: &AstTyped) -> (ok: bool)
    ensures
        ok == (regs@.len() > 0 && regs.next_reg() + num_ops(**e) <= u32::MAX),
{
    if regs.scopes.len() == 0 {
        return false;
    }
    let (next, _) = regs.scopes[regs.scopes.len() - 1];
    let room = (u32::MAX - next) as u64;
    let n = count_ops(e, room + 1);
    n <= room
}

/// Compiles `e` into the entry block `label_0`, taking registers from the
/// innermost scope of `regs`, whose counter moves past them.
pub fn compile_in(e: &AstTyped, regs: &mut RegisterStack) -> (res: Result<CompilationUnit, String>)
    requires
        old(regs)@.len() > 0,
        old(regs).next_reg() + num_ops(**e) <= u32::MAX,
    ensures
        compile_internal_post(**e, 0, Seq::empty(), Seq::empty(), old(regs)@, final(regs)@, res),
{
    compile_internal(e, 0, Vec::new(), Rc::new(Env::new()), Vec::new(), regs)
}

pub trait Compile {
    /// Holds where code generation has enough registers for `self`.
    spec fn compile_fits(&self) -> bool;

    fn compile(&self) -> Result<CompilationUnit, String>
        requires
            self.compile_fits(),
    ;
}

impl Compile for AstTyped {
    open spec fn compile_fits(&self) -> bool {
        num_ops(**self) <= u32::MAX
    }

    /// Compiles the expression into the body of `main`, staying in the entry
    /// block `label_0`. Each call starts a fresh register stack, so its
    /// registers are numbered from 0 whatever was compiled before; to go on
    /// numbering across several expressions, keep one `RegisterStack` and
    /// call `compile_in` with it.
    fn compile(&self) -> (res: Result<CompilationUnit, String>)
        ensures
            match res {
                Ok(cu) => spec_compile(**self, 0).0 matches Ok((result, code)) && cu.result == result
                    && cu.label == 0 && cu.instructions@ == code && cu.blocks@.len() == 0,
                Err(m) => spec_compile(**self, 0).0 == Err::<(LlvmResult, Seq<Instr>), Seq<char>>(m@),
            },
    {
        let mut regs = RegisterStack::new();
        let cu = compile_internal(self, 0, Vec::new(), Rc::new(Env::new()), Vec::new(), &mut regs);
        proof {
            if cu is Ok {
                let code = spec_compile(tnode(self), 0).0->Ok_0.1;
                assert(Seq::<Instr>::empty() + code =~= code);
            }
        }
        cu
    }
}

} // verus!
