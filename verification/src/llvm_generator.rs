use std::collections::{HashMap, HashSet};

use inkwell::basic_block::BasicBlock;
use inkwell::builder::Builder;
use inkwell::context::Context;
use inkwell::module::Module;
use inkwell::types::{FunctionType, IntType};
use inkwell::values::{FunctionValue, GlobalValue, IntValue};
use inkwell::AddressSpace;
use inkwell::IntPredicate;
use vstd::prelude::*;

use crate::ast_typed::AstTypedData;
use crate::codegen::{spec_compile, Block, CmpOp, CompilationUnit, IType, Instr, Label, LlvmResult, Register};
use crate::llvm_utils::{blocks_instrs, label_text, string_of_label};
use crate::machine::{defines_before_use, defs, dest, operand_defined, operands};

verus! {

broadcast use vstd::std_specs::hash::group_hash_axioms;

// ---------------------------------------------------------------------------
// The inkwell types that the emitter handles; their values are opaque here.
// ---------------------------------------------------------------------------

#[verifier::external_type_specification]
#[verifier::external_body]
pub struct ExContext(Context);

#[verifier::external_type_specification]
#[verifier::external_body]
pub struct ExModule<'ctx>(Module<'ctx>);

#[verifier::external_type_specification]
#[verifier::external_body]
pub struct ExBuilder<'ctx>(Builder<'ctx>);

#[verifier::external_type_specification]
#[verifier::external_body]
pub struct ExBasicBlock<'ctx>(BasicBlock<'ctx>);

#[verifier::external_type_specification]
#[verifier::external_body]
pub struct ExIntValue<'ctx>(IntValue<'ctx>);

#[verifier::external_type_specification]
#[verifier::external_body]
pub struct ExIntType<'ctx>(IntType<'ctx>);

#[verifier::external_type_specification]
#[verifier::external_body]
pub struct ExFunctionType<'ctx>(FunctionType<'ctx>);

#[verifier::external_type_specification]
#[verifier::external_body]
pub struct ExFunctionValue<'ctx>(FunctionValue<'ctx>);

#[verifier::external_type_specification]
#[verifier::external_body]
pub struct ExGlobalValue<'ctx>(GlobalValue<'ctx>);

#[verifier::external_type_specification]
#[verifier::external_body]
pub struct ExIoError(std::io::Error);

// ---------------------------------------------------------------------------
// What is asked of inkwell while a module is built. The emitter keeps, as
// ghost state, the list of its requests (with the LLVM handles each one took
// and gave) and the bit width of each value handle it has seen; the trusted
// items below say how each call extends that record.
// ---------------------------------------------------------------------------

/// The integer operations that map to one LLVM instruction.
#[derive(PartialEq, Eq, Structural)]
pub enum ArithOp {
    Add,
    Sub,
    Mul,
    SDiv,
    Xor,
}

/// The kinds of function parameter that the emitter declares.
#[derive(PartialEq, Eq, Structural)]
pub enum ParamType {
    /// A pointer to bytes (`i8*`), as a C string is passed.
    BytePtr,
}

/// One request to inkwell, with the handles it took and gave.
pub ghost enum Request<'ctx> {
    /// The type `fn_ty` of functions returning `ret` with parameters
    /// `params`, variadic if `var_args`.
    FnType { fn_ty: FunctionType<'ctx>, ret: IType, params: Seq<ParamType>, var_args: bool },
    /// A function `name` of type `fn_ty` was added to the module.
    AddFunction { function: FunctionValue<'ctx>, name: Seq<char>, fn_ty: FunctionType<'ctx> },
    /// The module was asked for its function `name`.
    LookupFunction { name: Seq<char>, found: Option<FunctionValue<'ctx>> },
    /// A block `name` was appended to `function`.
    AppendBlock { function: FunctionValue<'ctx>, block: BasicBlock<'ctx>, name: Seq<char> },
    /// The builder was moved to the end of `block`.
    PositionAtEnd { block: BasicBlock<'ctx> },
    /// The constant of type `ty` with the low bits of `bits`.
    Const { result: IntValue<'ctx>, ty: IType, bits: u64 },
    /// `op` applied to `lhs` and `rhs`.
    Arith { op: ArithOp, result: IntValue<'ctx>, lhs: IntValue<'ctx>, rhs: IntValue<'ctx> },
    /// `icmp` with the signed predicate of `op`.
    Compare { pred: CmpOp, result: IntValue<'ctx>, lhs: IntValue<'ctx>, rhs: IntValue<'ctx> },
    /// `zext` of `value` to type `ty`.
    ZExt { result: IntValue<'ctx>, value: IntValue<'ctx>, ty: IType },
    /// A global string `text` named `name`.
    GlobalString { global: GlobalValue<'ctx>, text: Seq<char>, name: Seq<char> },
    /// A call of `function` on the pointer to `format` and on `arg`.
    Call { function: FunctionValue<'ctx>, format: GlobalValue<'ctx>, arg: IntValue<'ctx> },
    /// `ret` of `value`.
    Return { value: IntValue<'ctx> },
}

/// The bit width of an instruction type.
pub open spec fn width(t: IType) -> u32 {
    match t {
        IType::I32 => 32,
        IType::I1 => 1,
    }
}

// ---------------------------------------------------------------------------
// Calls into inkwell. Each trusted item below makes one call (turning an
// `IType` into the context's type of that width where the call needs a type).
// ---------------------------------------------------------------------------

/// Calls `Context::create` for a fresh LLVM context; the contract claims
/// nothing of it.
#[verifier::external_body]
fn context_create() -> Context {
    Context::create()
}

/// Calls `Context::create_module`, which makes an empty module named `name`;
/// the contract claims nothing of the module.
#[verifier::external_body]
fn create_module<'ctx>(context: &'ctx Context, name: &str) -> Module<'ctx> {
    context.create_module(name)
}

/// Calls `Context::create_builder`; the builder has no position yet, and
/// the contract claims nothing else of it.
#[verifier::external_body]
fn create_builder<'ctx>(context: &'ctx Context) -> Builder<'ctx> {
    context.create_builder()
}

/// Calls `Context::i32_type`; the contract claims nothing of the type.
#[verifier::external_body]
fn i32_type<'ctx>(context: &'ctx Context) -> IntType<'ctx> {
    context.i32_type()
}

/// Calls `Context::bool_type` (the type `i1`); the contract claims nothing
/// of the type.
#[verifier::external_body]
fn bool_type<'ctx>(context: &'ctx Context) -> IntType<'ctx> {
    context.bool_type()
}

/// Calls `IntType::fn_type` on the context's type of `ret`, with one
/// parameter per entry of `params` (a byte pointer is `i8` in the default
/// address space); the request is recorded with the type that comes back.
#[verifier::external_body]
fn fn_type<'ctx>(
    em: &mut Emitter<'ctx>,
    context: &'ctx Context,
    ret: IType,
    params: &[ParamType],
    var_args: bool,
) -> (res: FunctionType<'ctx>)
    ensures
        final(em)@ == old(em)@.push(Request::FnType { fn_ty: res, ret, params: params@, var_args }),
        final(em).widths() == old(em).widths(),
        final(em).is_positioned() == old(em).is_positioned(),
{
    let ps: Vec<inkwell::types::BasicMetadataTypeEnum<'ctx>> = params.iter().map(|p| match p {
        ParamType::BytePtr => context.i8_type().ptr_type(AddressSpace::default()).into(),
    }).collect();
    let r = match ret {
        IType::I32 => context.i32_type(),
        IType::I1 => context.bool_type(),
    };
    r.fn_type(&ps, var_args)
}

/// Calls `Module::add_function` with default linkage and type `ty`; the
/// request is recorded with the function value that comes back.
#[verifier::external_body]
fn add_function<'ctx>(em: &mut Emitter<'ctx>, module: &Module<'ctx>, name: &str, ty: FunctionType<'ctx>) -> (res:
    FunctionValue<'ctx>)
    ensures
        final(em)@ == old(em)@.push(Request::AddFunction { function: res, name: name@, fn_ty: ty }),
        final(em).widths() == old(em).widths(),
        final(em).is_positioned() == old(em).is_positioned(),
{
    module.add_function(name, ty, None)
}

/// Calls `Module::get_function`, the function of that name if the module
/// has one; the request is recorded with what came back.
#[verifier::external_body]
fn get_function<'ctx>(em: &mut Emitter<'ctx>, module: &Module<'ctx>, name: &str) -> (res: Option<FunctionValue<'ctx>>)
    ensures
        final(em)@ == old(em)@.push(Request::LookupFunction { name: name@, found: res }),
        final(em).widths() == old(em).widths(),
        final(em).is_positioned() == old(em).is_positioned(),
{
    module.get_function(name)
}

/// Calls `Context::append_basic_block`, a new block named `name` at the end
/// of `function`; the request is recorded with the block that comes back.
#[verifier::external_body]
fn append_basic_block<'ctx>(
    em: &mut Emitter<'ctx>,
    context: &'ctx Context,
    function: FunctionValue<'ctx>,
    name: &str,
) -> (res: BasicBlock<'ctx>)
    ensures
        final(em)@ == old(em)@.push(Request::AppendBlock { function, block: res, name: name@ }),
        final(em).widths() == old(em).widths(),
        final(em).is_positioned() == old(em).is_positioned(),
{
    context.append_basic_block(function, name)
}

/// Calls `IntType::const_int` on the context's `i32` (sign-extending) or
/// `i1` type: the constant of that type with the low bits of `bits`, whose
/// width is that of the type.
#[verifier::external_body]
fn const_int<'ctx>(em: &mut Emitter<'ctx>, context: &'ctx Context, t: IType, bits: u64) -> (res: IntValue<'ctx>)
    ensures
        final(em)@ == old(em)@.push(Request::Const { result: res, ty: t, bits }),
        final(em).widths() == old(em).widths().insert(res, width(t)),
        final(em).is_positioned() == old(em).is_positioned(),
{
    match t {
        IType::I32 => context.i32_type().const_int(bits, true),
        IType::I1 => context.bool_type().const_int(bits, false),
    }
}

/// Calls `IntValue::get_type` and `IntType::get_bit_width`: the bit width of
/// the type of `v`, which is the one recorded for `v` where there is one.
#[verifier::external_body]
fn value_bit_width<'ctx>(em: &Emitter<'ctx>, v: IntValue<'ctx>) -> (res: u32)
    ensures
        em.widths().contains_key(v) ==> res == em.widths()[v],
{
    v.get_type().get_bit_width()
}

/// Calls `Module::print_to_string` and converts the text to a `String`; the
/// contract claims nothing of the text.
#[verifier::external_body]
fn print_to_string<'ctx>(module: &Module<'ctx>) -> String {
    module.print_to_string().to_string()
}

/// Calls `Builder::position_at_end`; the request is recorded.
#[verifier::external_body]
fn builder_position_at_end<'ctx>(em: &mut Emitter<'ctx>, block: BasicBlock<'ctx>)
    ensures
        final(em)@ == old(em)@.push(Request::PositionAtEnd { block }),
        final(em).widths() == old(em).widths(),
        final(em).is_positioned() == old(em).is_positioned(),
{
    em.builder.position_at_end(block)
}

/// A builder with a record of whether it has been given a position (inkwell's
/// `build_*` calls fail only on a builder that has none), of the requests made
/// through it, and of the bit widths of the values those requests gave.
pub struct Emitter<'ctx> {
    builder: Builder<'ctx>,
    positioned: bool,
    log: Ghost<Seq<Request<'ctx>>>,
    value_widths: Ghost<Map<IntValue<'ctx>, u32>>,
}

impl<'ctx> View for Emitter<'ctx> {
    type V = Seq<Request<'ctx>>;

    closed spec fn view(&self) -> Seq<Request<'ctx>> {
        self.log@
    }
}

impl<'ctx> Emitter<'ctx> {
    pub closed spec fn is_positioned(&self) -> bool {
        self.positioned
    }

    /// The bit widths of the values that the recorded requests gave.
    pub closed spec fn widths(&self) -> Map<IntValue<'ctx>, u32> {
        self.value_widths@
    }

    fn new(context: &'ctx Context) -> (em: Self)
        ensures
            !em.is_positioned(),
            em@ == Seq::<Request<'ctx>>::empty(),
            em.widths() == Map::<IntValue<'ctx>, u32>::empty(),
    {
        Emitter {
            builder: create_builder(context),
            positioned: false,
            log: Ghost(Seq::empty()),
            value_widths: Ghost(Map::empty()),
        }
    }

    /// Moves the builder to the end of `block`.
    fn position_at_end(&mut self, block: BasicBlock<'ctx>)
        ensures
            final(self).is_positioned(),
            final(self)@ == old(self)@.push(Request::PositionAtEnd { block }),
            final(self).widths() == old(self).widths(),
    {
        builder_position_at_end(self, block);
        self.positioned = true;
    }
}

/// Calls `Builder::build_int_add`. inkwell fails only on a builder without a
/// position, which `requires` rules out; the request is recorded, and the
/// result has the width of its operands.
#[verifier::external_body]
fn build_int_add<'ctx>(em: &mut Emitter<'ctx>, lhs: IntValue<'ctx>, rhs: IntValue<'ctx>, name: &str) -> (res: IntValue<'ctx>)
    requires
        old(em).is_positioned(),
        old(em).widths().contains_key(lhs),
    ensures
        final(em)@ == old(em)@.push(Request::Arith { op: ArithOp::Add, result: res, lhs, rhs }),
        final(em).widths() == old(em).widths().insert(res, old(em).widths()[lhs]),
        final(em).is_positioned(),
{
    em.builder.build_int_add(lhs, rhs, name).unwrap()
}

/// Calls `Builder::build_int_sub`. inkwell fails only on a builder without a
/// position, which `requires` rules out; the request is recorded, and the
/// result has the width of its operands.
#[verifier::external_body]
fn build_int_sub<'ctx>(em: &mut Emitter<'ctx>, lhs: IntValue<'ctx>, rhs: IntValue<'ctx>, name: &str) -> (res: IntValue<'ctx>)
    requires
        old(em).is_positioned(),
        old(em).widths().contains_key(lhs),
    ensures
        final(em)@ == old(em)@.push(Request::Arith { op: ArithOp::Sub, result: res, lhs, rhs }),
        final(em).widths() == old(em).widths().insert(res, old(em).widths()[lhs]),
        final(em).is_positioned(),
{
    em.builder.build_int_sub(lhs, rhs, name).unwrap()
}

/// Calls `Builder::build_int_mul`. inkwell fails only on a builder without a
/// position, which `requires` rules out; the request is recorded, and the
/// result has the width of its operands.
#[verifier::external_body]
fn build_int_mul<'ctx>(em: &mut Emitter<'ctx>, lhs: IntValue<'ctx>, rhs: IntValue<'ctx>, name: &str) -> (res: IntValue<'ctx>)
    requires
        old(em).is_positioned(),
        old(em).widths().contains_key(lhs),
    ensures
        final(em)@ == old(em)@.push(Request::Arith { op: ArithOp::Mul, result: res, lhs, rhs }),
        final(em).widths() == old(em).widths().insert(res, old(em).widths()[lhs]),
        final(em).is_positioned(),
{
    em.builder.build_int_mul(lhs, rhs, name).unwrap()
}

/// Calls `Builder::build_int_signed_div`. inkwell fails only on a builder without a
/// position, which `requires` rules out; the request is recorded, and the
/// result has the width of its operands.
#[verifier::external_body]
fn build_int_signed_div<'ctx>(em: &mut Emitter<'ctx>, lhs: IntValue<'ctx>, rhs: IntValue<'ctx>, name: &str) -> (res: IntValue<'ctx>)
    requires
        old(em).is_positioned(),
        old(em).widths().contains_key(lhs),
    ensures
        final(em)@ == old(em)@.push(Request::Arith { op: ArithOp::SDiv, result: res, lhs, rhs }),
        final(em).widths() == old(em).widths().insert(res, old(em).widths()[lhs]),
        final(em).is_positioned(),
{
    em.builder.build_int_signed_div(lhs, rhs, name).unwrap()
}

/// Calls `Builder::build_xor`. inkwell fails only on a builder without a
/// position, which `requires` rules out; the request is recorded, and the
/// result has the width of its operands.
#[verifier::external_body]
fn build_xor<'ctx>(em: &mut Emitter<'ctx>, lhs: IntValue<'ctx>, rhs: IntValue<'ctx>, name: &str) -> (res: IntValue<'ctx>)
    requires
        old(em).is_positioned(),
        old(em).widths().contains_key(lhs),
    ensures
        final(em)@ == old(em)@.push(Request::Arith { op: ArithOp::Xor, result: res, lhs, rhs }),
        final(em).widths() == old(em).widths().insert(res, old(em).widths()[lhs]),
        final(em).is_positioned(),
{
    em.builder.build_xor(lhs, rhs, name).unwrap()
}

/// Calls `Builder::build_int_compare` with the signed predicate of `op`
/// (`eq`, `ne`, `slt`, `sle`, `sgt`, `sge`). inkwell fails only on a builder
/// without a position, which `requires` rules out; the result is an `i1`.
#[verifier::external_body]
fn build_int_compare<'ctx>(em: &mut Emitter<'ctx>, op: CmpOp, lhs: IntValue<'ctx>, rhs: IntValue<'ctx>, name: &str) -> (res:
    IntValue<'ctx>)
    requires
        old(em).is_positioned(),
    ensures
        final(em)@ == old(em)@.push(Request::Compare { pred: op, result: res, lhs, rhs }),
        final(em).widths() == old(em).widths().insert(res, 1u32),
        final(em).is_positioned(),
{
    let predicate = match op {
        CmpOp::Eq => IntPredicate::EQ,
        CmpOp::Ne => IntPredicate::NE,
        CmpOp::Lt => IntPredicate::SLT,
        CmpOp::Le => IntPredicate::SLE,
        CmpOp::Gt => IntPredicate::SGT,
        CmpOp::Ge => IntPredicate::SGE,
    };
    em.builder.build_int_compare(predicate, lhs, rhs, name).unwrap()
}

/// Calls `Builder::build_int_z_extend` to the context's type of `t`. inkwell
/// fails only on a builder without a position, which `requires` rules out;
/// the result has the width of `t`.
#[verifier::external_body]
fn build_int_z_extend<'ctx>(em: &mut Emitter<'ctx>, context: &'ctx Context, value: IntValue<'ctx>, t: IType, name: &str) -> (res:
    IntValue<'ctx>)
    requires
        old(em).is_positioned(),
    ensures
        final(em)@ == old(em)@.push(Request::ZExt { result: res, value, ty: t }),
        final(em).widths() == old(em).widths().insert(res, width(t)),
        final(em).is_positioned(),
{
    let ty = match t {
        IType::I32 => context.i32_type(),
        IType::I1 => context.bool_type(),
    };
    em.builder.build_int_z_extend(value, ty, name).unwrap()
}

/// Calls `Builder::build_global_string_ptr`. inkwell fails only on a builder
/// without a position, which `requires` rules out.
#[verifier::external_body]
fn build_global_string_ptr<'ctx>(em: &mut Emitter<'ctx>, value: &str, name: &str) -> (res: GlobalValue<'ctx>)
    requires
        old(em).is_positioned(),
    ensures
        final(em)@ == old(em)@.push(Request::GlobalString { global: res, text: value@, name: name@ }),
        final(em).widths() == old(em).widths(),
        final(em).is_positioned(),
{
    em.builder.build_global_string_ptr(value, name).unwrap()
}

/// Calls `Builder::build_call` of `function` on the pointer to `format` and
/// on `arg`. inkwell fails only on a builder without a position, which
/// `requires` rules out.
#[verifier::external_body]
fn build_call<'ctx>(
    em: &mut Emitter<'ctx>,
    function: FunctionValue<'ctx>,
    format: GlobalValue<'ctx>,
    arg: IntValue<'ctx>,
    name: &str,
)
    requires
        old(em).is_positioned(),
    ensures
        final(em)@ == old(em)@.push(Request::Call { function, format, arg }),
        final(em).widths() == old(em).widths(),
        final(em).is_positioned(),
{
    em.builder.build_call(function, &[format.as_pointer_value().into(), arg.into()], name).unwrap();
}

/// Calls `Builder::build_return` of `value`. inkwell fails only on a builder
/// without a position, which `requires` rules out.
#[verifier::external_body]
fn build_return<'ctx>(em: &mut Emitter<'ctx>, value: IntValue<'ctx>)
    requires
        old(em).is_positioned(),
    ensures
        final(em)@ == old(em)@.push(Request::Return { value }),
        final(em).widths() == old(em).widths(),
        final(em).is_positioned(),
{
    em.builder.build_return(Some(&value)).unwrap();
}

// ---------------------------------------------------------------------------
// Emission of a compilation unit as the function `main` of a module.
// ---------------------------------------------------------------------------

/// The instructions in the order they are emitted: the finished blocks,
/// then the open block.
pub open spec fn emission_order(cu: CompilationUnit) -> Seq<Instr> {
    blocks_instrs(cu.blocks@) + cu.instructions@
}

/// Every register that the unit reads, its result included, is defined by
/// an instruction emitted before the read.
pub open spec fn unit_well_formed(cu: CompilationUnit) -> bool {
    &&& defines_before_use(Set::empty(), emission_order(cu))
    &&& operand_defined(defs(emission_order(cu)), cu.result)
}

fn operand_is_defined(defined: &HashSet<Register>, r: &LlvmResult) -> (b: bool)
    ensures
        b == operand_defined(defined@, *r),
{
    match r {
        LlvmResult::IConst(..) => true,
        LlvmResult::Register(k) => defined.contains(k),
    }
}

fn instr_operands(instr: &Instr) -> (res: (LlvmResult, LlvmResult))
    ensures
        res == operands(*instr),
{
    match instr {
        Instr::Addi32(_, a, b) => (*a, *b),
        Instr::Subi32(_, a, b) => (*a, *b),
        Instr::Muli32(_, a, b) => (*a, *b),
        Instr::Divi32(_, a, b) => (*a, *b),
        Instr::Cmp(_, _, a, b, _) => (*a, *b),
        Instr::Xor(_, a, b) => (*a, *b),
    }
}

fn instr_dest(instr: &Instr) -> (r: Register)
    ensures
        r == dest(*instr),
{
    match instr {
        Instr::Addi32(d, ..) => *d,
        Instr::Subi32(d, ..) => *d,
        Instr::Muli32(d, ..) => *d,
        Instr::Divi32(d, ..) => *d,
        Instr::Cmp(d, ..) => *d,
        Instr::Xor(d, ..) => *d,
    }
}

/// Whether every register that `code` reads is in `defined` or defined
/// earlier in `code`; when it is, adds the registers that `code` defines.
fn check_instrs(defined: &mut HashSet<Register>, code: &Vec<Instr>) -> (ok: bool)
    ensures
        ok == defines_before_use(old(defined)@, code@),
        ok ==> final(defined)@ == old(defined)@.union(defs(code@)),
{
    let ghost start = defined@;
    let mut k: usize = 0;
    proof {
        assert(code@.skip(0) =~= code@);
        assert(code@.take(0) =~= Seq::<Instr>::empty());
        assert(start.union(defs(Seq::<Instr>::empty())) =~= start);
    }
    while k < code.len()
        invariant
            k <= code@.len(),
            start == old(defined)@,
            defines_before_use(start, code@) == defines_before_use(defined@, code@.skip(k as int)),
            defined@ == start.union(defs(code@.take(k as int))),
        decreases code@.len() - k,
    {
        let ghost rest = code@.skip(k as int);
        proof {
            assert(rest[0] == code@[k as int]);
            assert(rest.drop_first() =~= code@.skip(k + 1));
        }
        let (a, b) = instr_operands(&code[k]);
        if !operand_is_defined(defined, &a) || !operand_is_defined(defined, &b) {
            proof {
                assert(rest.len() > 0);
                assert(!defines_before_use(defined@, rest));
            }
            return false;
        }
        defined.insert(instr_dest(&code[k]));
        proof {
            assert(code@.take(k + 1) =~= code@.take(k as int) + seq![code@[k as int]]);
            crate::machine::lemma_defs_append(code@.take(k as int), seq![code@[k as int]]);
            crate::machine::lemma_defs_first(seq![code@[k as int]]);
            assert(seq![code@[k as int]].drop_first() =~= Seq::<Instr>::empty());
            assert(defs(Seq::<Instr>::empty()) =~= Set::<Register>::empty());
            assert(defined@ =~= start.union(defs(code@.take(k + 1))));
        }
        k = k + 1;
    }
    proof {
        assert(code@.take(k as int) =~= code@);
        assert(code@.skip(k as int) =~= Seq::<Instr>::empty());
    }
    true
}

/// Whether every register that the unit reads, its result included, is
/// defined by an instruction emitted before the read.
pub fn is_well_formed(cu: &CompilationUnit) -> (ok: bool)
    ensures
        ok == unit_well_formed(*cu),
{
    let mut defined: HashSet<Register> = HashSet::new();
    let mut i: usize = 0;
    proof {
        assert(cu.blocks@.skip(0) =~= cu.blocks@);
        assert(cu.blocks@.take(0) =~= Seq::<Block>::empty());
        assert(defined@ =~= defs(blocks_instrs(Seq::<Block>::empty())));
        assert(defined@ =~= Set::<Register>::empty());
    }
    while i < cu.blocks.len()
        invariant
            i <= cu.blocks@.len(),
            defines_before_use(Set::empty(), emission_order(*cu)) == defines_before_use(
                defined@,
                blocks_instrs(cu.blocks@.skip(i as int)) + cu.instructions@,
            ),
            defined@ == defs(blocks_instrs(cu.blocks@.take(i as int))),
        decreases cu.blocks@.len() - i,
    {
        let ghost rest = cu.blocks@.skip(i as int);
        let ghost tail = blocks_instrs(rest.drop_first()) + cu.instructions@;
        let ghost before = defined@;
        proof {
            assert(rest.drop_first() =~= cu.blocks@.skip(i + 1));
            assert(blocks_instrs(rest) + cu.instructions@ =~= rest[0].instructions@ + tail);
            if defines_before_use(before, rest[0].instructions@ + tail) {
                crate::machine::lemma_defines_before_use_split(before, rest[0].instructions@, tail);
            }
        }
        if !check_instrs(&mut defined, &cu.blocks[i].instructions) {
            return false;
        }
        proof {
            if defines_before_use(defined@, tail) {
                crate::machine::lemma_defines_before_use_append(before, rest[0].instructions@, tail);
            }
            lemma_blocks_instrs_take(cu.blocks@, i as int);
            crate::machine::lemma_defs_append(blocks_instrs(cu.blocks@.take(i as int)), cu.blocks@[i as int].instructions@);
        }
        i = i + 1;
    }
    proof {
        assert(cu.blocks@.skip(i as int) =~= Seq::<Block>::empty());
        assert(blocks_instrs(Seq::<Block>::empty()) + cu.instructions@ =~= cu.instructions@);
        assert(cu.blocks@.take(i as int) =~= cu.blocks@);
        crate::machine::lemma_defs_append(blocks_instrs(cu.blocks@), cu.instructions@);
    }
    if !check_instrs(&mut defined, &cu.instructions) {
        return false;
    }
    operand_is_defined(&defined, &cu.result)
}

/// The units that `compile` produces are well formed: its code reads only
/// registers it defined before, and its result is one of them or a constant.
pub proof fn theorem_compiled_unit_well_formed(e: AstTypedData, cu: CompilationUnit)
    requires
        spec_compile(e, 0).0 matches Ok((result, code)) && cu.result == result && cu.instructions@ == code
            && cu.blocks@.len() == 0,
    ensures
        unit_well_formed(cu),
{
    let code = spec_compile(e, 0).0->Ok_0.1;
    crate::machine::theorem_compile_defines_before_use(e, 0, Set::empty());
    assert(blocks_instrs(cu.blocks@) =~= Seq::<Instr>::empty());
    assert(emission_order(cu) =~= code);
    assert(Set::<Register>::empty().union(defs(code)) =~= defs(code));
}

/// The integer type of an instruction type.
pub trait TypeOf {
    fn type_of(&self, t: &IType) -> IntType<'_>;
}

impl TypeOf for Context {
    fn type_of(&self, t: &IType) -> IntType<'_> {
        match t {
            IType::I1 => bool_type(self),
            IType::I32 => i32_type(self),
        }
    }
}

// ---------------------------------------------------------------------------
// What the emission of instructions asks of inkwell.
// ---------------------------------------------------------------------------

/// Every register of `regs` holds a value whose width is recorded.
pub open spec fn widths_known<'ctx>(widths: Map<IntValue<'ctx>, u32>, regs: Map<Register, IntValue<'ctx>>) -> bool {
    forall|k: Register| #[trigger] regs.contains_key(k) ==> widths.contains_key(regs[k])
}

/// `v` is the value of the operand `r` when the registers hold `regs`.
pub open spec fn operand_value<'ctx>(regs: Map<Register, IntValue<'ctx>>, r: LlvmResult, v: IntValue<'ctx>) -> bool {
    r matches LlvmResult::Register(k) ==> v == regs[k]
}

/// The requests that make the value `v` of the operand `r`: a constant of the
/// operand's type and bits for a constant, none for a register.
pub open spec fn operand_requests<'ctx>(r: LlvmResult, v: IntValue<'ctx>) -> Seq<Request<'ctx>> {
    match r {
        LlvmResult::IConst(n, t) => seq![Request::Const { result: v, ty: t, bits: n as u64 }],
        LlvmResult::Register(_) => Seq::empty(),
    }
}

/// The request that computes the instruction `i` from the values of its
/// operands: `add`, `sub`, `mul`, `sdiv`, `xor`, or a signed `icmp`.
pub open spec fn instr_request<'ctx>(
    i: Instr,
    result: IntValue<'ctx>,
    lhs: IntValue<'ctx>,
    rhs: IntValue<'ctx>,
) -> Request<'ctx> {
    match i {
        Instr::Addi32(..) => Request::Arith { op: ArithOp::Add, result, lhs, rhs },
        Instr::Subi32(..) => Request::Arith { op: ArithOp::Sub, result, lhs, rhs },
        Instr::Muli32(..) => Request::Arith { op: ArithOp::Mul, result, lhs, rhs },
        Instr::Divi32(..) => Request::Arith { op: ArithOp::SDiv, result, lhs, rhs },
        Instr::Cmp(_, op, ..) => Request::Compare { pred: op, result, lhs, rhs },
        Instr::Xor(..) => Request::Arith { op: ArithOp::Xor, result, lhs, rhs },
    }
}

/// The recorded widths after the value `v` of the operand `r` is made: a
/// constant has the width of its type; a register's value was recorded
/// before.
pub open spec fn operand_widths<'ctx>(
    widths: Map<IntValue<'ctx>, u32>,
    r: LlvmResult,
    v: IntValue<'ctx>,
) -> Map<IntValue<'ctx>, u32> {
    match r {
        LlvmResult::IConst(_, t) => widths.insert(v, width(t)),
        LlvmResult::Register(_) => widths,
    }
}

/// The width of the result of `i` whose left operand has width `lhs_width`:
/// a comparison gives an `i1`, the other operations the width of their
/// operands.
pub open spec fn result_width(i: Instr, lhs_width: u32) -> u32 {
    match i {
        Instr::Cmp(..) => 1,
        _ => lhs_width,
    }
}

/// Emitting `i` with the registers holding `regs` and the widths `widths`
/// recorded extends the record `before` to `after`: its operands are made,
/// left then right, and the one request that computes `i` from them gives
/// `result`; the widths then recorded are `widths_after`.
pub open spec fn emits_instr<'ctx>(
    regs: Map<Register, IntValue<'ctx>>,
    widths: Map<IntValue<'ctx>, u32>,
    i: Instr,
    before: Seq<Request<'ctx>>,
    after: Seq<Request<'ctx>>,
    result: IntValue<'ctx>,
    widths_after: Map<IntValue<'ctx>, u32>,
) -> bool {
    exists|lhs: IntValue<'ctx>, rhs: IntValue<'ctx>|
        #![trigger instr_request(i, result, lhs, rhs)]
        {
            let wm = operand_widths(operand_widths(widths, operands(i).0, lhs), operands(i).1, rhs);
            &&& operand_value(regs, operands(i).0, lhs)
            &&& operand_value(regs, operands(i).1, rhs)
            &&& after == before + operand_requests(operands(i).0, lhs) + operand_requests(operands(i).1, rhs)
                + seq![instr_request(i, result, lhs, rhs)]
            &&& widths_after == wm.insert(result, result_width(i, wm[lhs]))
        }
}

/// Emitting `code` in order with the registers holding `regs` and the widths
/// `widths` recorded extends the record `before` to `after`, each
/// instruction as `emits_instr` says, and leaves the registers holding
/// `regs_after` and the widths `widths_after` recorded.
pub open spec fn emits<'ctx>(
    regs: Map<Register, IntValue<'ctx>>,
    widths: Map<IntValue<'ctx>, u32>,
    code: Seq<Instr>,
    before: Seq<Request<'ctx>>,
    after: Seq<Request<'ctx>>,
    regs_after: Map<Register, IntValue<'ctx>>,
    widths_after: Map<IntValue<'ctx>, u32>,
) -> bool
    decreases code.len(),
{
    if code.len() == 0 {
        after == before && regs_after == regs && widths_after == widths
    } else {
        exists|mid: Seq<Request<'ctx>>, result: IntValue<'ctx>, wm: Map<IntValue<'ctx>, u32>|
            #![trigger emits_instr(regs, widths, code[0], before, mid, result, wm)]
            emits_instr(regs, widths, code[0], before, mid, result, wm) && emits(
                regs.insert(dest(code[0]), result),
                wm,
                code.drop_first(),
                mid,
                after,
                regs_after,
                widths_after,
            )
    }
}

proof fn lemma_emits_push<'ctx>(
    regs: Map<Register, IntValue<'ctx>>,
    w0: Map<IntValue<'ctx>, u32>,
    code: Seq<Instr>,
    i: Instr,
    l0: Seq<Request<'ctx>>,
    l1: Seq<Request<'ctx>>,
    l2: Seq<Request<'ctx>>,
    r1: Map<Register, IntValue<'ctx>>,
    w1: Map<IntValue<'ctx>, u32>,
    result: IntValue<'ctx>,
    w2: Map<IntValue<'ctx>, u32>,
)
    requires
        emits(regs, w0, code, l0, l1, r1, w1),
        emits_instr(r1, w1, i, l1, l2, result, w2),
    ensures
        emits(regs, w0, code.push(i), l0, l2, r1.insert(dest(i), result), w2),
    decreases code.len(),
{
    let c2 = code.push(i);
    if code.len() == 0 {
        assert(c2.drop_first() =~= Seq::<Instr>::empty());
        assert(c2[0] == i);
        assert(emits(r1.insert(dest(i), result), w2, c2.drop_first(), l2, l2, r1.insert(dest(i), result), w2));
    } else {
        let (mid, res0, wm) = choose|mid: Seq<Request<'ctx>>, res0: IntValue<'ctx>, wm: Map<IntValue<'ctx>, u32>|
            #![trigger emits_instr(regs, w0, code[0], l0, mid, res0, wm)]
            emits_instr(regs, w0, code[0], l0, mid, res0, wm) && emits(
                regs.insert(dest(code[0]), res0),
                wm,
                code.drop_first(),
                mid,
                l1,
                r1,
                w1,
            );
        lemma_emits_push(regs.insert(dest(code[0]), res0), wm, code.drop_first(), i, mid, l1, l2, r1, w1, result, w2);
        assert(c2.drop_first() =~= code.drop_first().push(i));
        assert(c2[0] == code[0]);
    }
}

/// The LLVM value of an operand: a constant of its type and bits, or the
/// value that the register was defined with.
fn resolve<'ctx>(
    context: &'ctx Context,
    em: &mut Emitter<'ctx>,
    regs: &HashMap<Register, IntValue<'ctx>>,
    r: &LlvmResult,
) -> (v: IntValue<'ctx>)
    requires
        operand_defined(regs@.dom(), *r),
        widths_known(old(em).widths(), regs@),
    ensures
        operand_value(regs@, *r, v),
        final(em)@ == old(em)@ + operand_requests(*r, v),
        final(em).widths().contains_key(v),
        old(em).widths().dom().subset_of(final(em).widths().dom()),
        final(em).widths() == operand_widths(old(em).widths(), *r, v),
        final(em).is_positioned() == old(em).is_positioned(),
{
    match r {
        LlvmResult::IConst(n, t) => {
            let v = const_int(em, context, *t, *n as u64);
            proof {
                assert(em@ =~= old(em)@ + operand_requests(*r, v));
            }
            v
        },
        LlvmResult::Register(reg) => {
            proof {
                assert(em@ =~= old(em)@ + Seq::<Request<'ctx>>::empty());
            }
            match regs.get(reg) {
                Some(v) => *v,
                None => {
                    proof {
                        assert(regs@.contains_key(*reg));
                    }
                    const_int(em, context, IType::I32, 0)
                },
            }
        },
    }
}

/// Emits one instruction at the builder's position and records the value
/// of the register it defines.
fn emit_instr<'ctx>(
    context: &'ctx Context,
    em: &mut Emitter<'ctx>,
    _blocks: &HashMap<Label, BasicBlock<'ctx>>,
    regs: &mut HashMap<Register, IntValue<'ctx>>,
    instr: &Instr,
)
    requires
        old(em).is_positioned(),
        operand_defined(old(regs)@.dom(), operands(*instr).0),
        operand_defined(old(regs)@.dom(), operands(*instr).1),
        widths_known(old(em).widths(), old(regs)@),
    ensures
        final(em).is_positioned(),
        final(regs)@ == old(regs)@.insert(dest(*instr), final(regs)@[dest(*instr)]),
        widths_known(final(em).widths(), final(regs)@),
        emits_instr(
            old(regs)@,
            old(em).widths(),
            *instr,
            old(em)@,
            final(em)@,
            final(regs)@[dest(*instr)],
            final(em).widths(),
        ),
{
    let ghost regs0 = regs@;
    let ghost log0 = em@;
    let ghost widths0 = em.widths();
    let (ret, r1, r2) = match instr {
        Instr::Addi32(ret, r1, r2) => (*ret, *r1, *r2),
        Instr::Subi32(ret, r1, r2) => (*ret, *r1, *r2),
        Instr::Muli32(ret, r1, r2) => (*ret, *r1, *r2),
        Instr::Divi32(ret, r1, r2) => (*ret, *r1, *r2),
        Instr::Cmp(ret, _, r1, r2, _) => (*ret, *r1, *r2),
        Instr::Xor(ret, r1, r2) => (*ret, *r1, *r2),
    };
    let lhs = resolve(context, em, regs, &r1);
    let ghost log1 = em@;
    let rhs = resolve(context, em, regs, &r2);
    let ghost log2 = em@;
    let ghost wm = em.widths();
    let result = match instr {
        Instr::Addi32(..) => build_int_add(em, lhs, rhs, "addtmp"),
        Instr::Subi32(..) => build_int_sub(em, lhs, rhs, "subtmp"),
        Instr::Muli32(..) => build_int_mul(em, lhs, rhs, "multmp"),
        Instr::Divi32(..) => build_int_signed_div(em, lhs, rhs, "divtmp"),
        Instr::Xor(..) => build_xor(em, lhs, rhs, "xortmp"),
        Instr::Cmp(_, op, ..) => build_int_compare(em, *op, lhs, rhs, "cmptmp"),
    };
    regs.insert(ret, result);
    proof {
        assert(em@ == log2.push(instr_request(*instr, result, lhs, rhs)));
        assert(em@ =~= log0 + operand_requests(operands(*instr).0, lhs) + operand_requests(operands(*instr).1, rhs)
            + seq![instr_request(*instr, result, lhs, rhs)]);
        assert(regs@ =~= regs0.insert(dest(*instr), regs@[dest(*instr)]));
        assert(wm == operand_widths(operand_widths(widths0, operands(*instr).0, lhs), operands(*instr).1, rhs));
        assert(em.widths() == wm.insert(result, result_width(*instr, wm[lhs])));
        assert(emits_instr(regs0, widths0, *instr, log0, em@, result, em.widths()));
    }
}

/// Emits a sequence of instructions at the builder's position.
fn emit_instrs<'ctx>(
    context: &'ctx Context,
    em: &mut Emitter<'ctx>,
    blocks: &HashMap<Label, BasicBlock<'ctx>>,
    regs: &mut HashMap<Register, IntValue<'ctx>>,
    instructions: &Vec<Instr>,
)
    requires
        old(em).is_positioned(),
        defines_before_use(old(regs)@.dom(), instructions@),
        widths_known(old(em).widths(), old(regs)@),
    ensures
        final(em).is_positioned(),
        final(regs)@.dom() == old(regs)@.dom().union(defs(instructions@)),
        widths_known(final(em).widths(), final(regs)@),
        emits(old(regs)@, old(em).widths(), instructions@, old(em)@, final(em)@, final(regs)@, final(em).widths()),
{
    let ghost start = regs@.dom();
    let ghost regs0 = regs@;
    let ghost log0 = em@;
    let ghost w0 = em.widths();
    let mut k: usize = 0;
    proof {
        assert(instructions@.skip(0) =~= instructions@);
        assert(instructions@.take(0) =~= Seq::<Instr>::empty());
        assert(start.union(defs(Seq::<Instr>::empty())) =~= start);
    }
    while k < instructions.len()
        invariant
            k <= instructions@.len(),
            em.is_positioned(),
            defines_before_use(regs@.dom(), instructions@.skip(k as int)),
            regs@.dom() == start.union(defs(instructions@.take(k as int))),
            widths_known(em.widths(), regs@),
            emits(regs0, w0, instructions@.take(k as int), log0, em@, regs@, em.widths()),
        decreases instructions@.len() - k,
    {
        let ghost rest = instructions@.skip(k as int);
        let ghost regs1 = regs@;
        let ghost log1 = em@;
        let ghost w1 = em.widths();
        emit_instr(context, em, blocks, regs, &instructions[k]);
        proof {
            assert(rest[0] == instructions@[k as int]);
            assert(rest.drop_first() =~= instructions@.skip(k + 1));
            assert(instructions@.take(k + 1) =~= instructions@.take(k as int) + seq![instructions@[k as int]]);
            assert(instructions@.take(k + 1) =~= instructions@.take(k as int).push(instructions@[k as int]));
            lemma_emits_push(
                regs0,
                w0,
                instructions@.take(k as int),
                instructions@[k as int],
                log0,
                log1,
                em@,
                regs1,
                w1,
                regs@[dest(instructions@[k as int])],
                em.widths(),
            );
            crate::machine::lemma_defs_append(instructions@.take(k as int), seq![instructions@[k as int]]);
            crate::machine::lemma_defs_first(seq![instructions@[k as int]]);
            assert(seq![instructions@[k as int]].drop_first() =~= Seq::<Instr>::empty());
            assert(defs(Seq::<Instr>::empty()) =~= Set::<Register>::empty());
            assert(regs@.dom() =~= start.union(defs(instructions@.take(k + 1))));
        }
        k = k + 1;
    }
    proof {
        assert(instructions@.take(k as int) =~= instructions@);
    }
}

/// Emits a finished block at the end of its LLVM block.
fn emit_block<'ctx>(
    context: &'ctx Context,
    em: &mut Emitter<'ctx>,
    blocks: &HashMap<Label, BasicBlock<'ctx>>,
    regs: &mut HashMap<Register, IntValue<'ctx>>,
    b: &Block,
)
    requires
        blocks@.contains_key(b.label),
        defines_before_use(old(regs)@.dom(), b.instructions@),
        widths_known(old(em).widths(), old(regs)@),
    ensures
        final(em).is_positioned(),
        final(regs)@.dom() == old(regs)@.dom().union(defs(b.instructions@)),
        widths_known(final(em).widths(), final(regs)@),
        emits(
            old(regs)@,
            old(em).widths(),
            b.instructions@,
            old(em)@.push(Request::PositionAtEnd { block: blocks@[b.label] }),
            final(em)@,
            final(regs)@,
            final(em).widths(),
        ),
{
    let bb = match blocks.get(&b.label) {
        Some(bb) => *bb,
        None => {
            proof {
                assert(false);
            }
            return;
        },
    };
    em.position_at_end(bb);
    emit_instrs(context, em, blocks, regs, &b.instructions);
}

/// Promotes a value narrower than 32 bits to `i32` with `zext`; leaves a
/// wider value as it is.
fn widen_to_i32<'ctx>(context: &'ctx Context, em: &mut Emitter<'ctx>, value: IntValue<'ctx>) -> (res: IntValue<'ctx>)
    requires
        old(em).is_positioned(),
        old(em).widths().contains_key(value),
    ensures
        final(em).is_positioned(),
        old(em).widths()[value] < 32 ==> final(em)@ == old(em)@.push(
            Request::ZExt { result: res, value, ty: IType::I32 },
        ),
        old(em).widths()[value] >= 32 ==> res == value && final(em)@ == old(em)@,
        old(em).widths().dom().subset_of(final(em).widths().dom()),
{
    if value_bit_width(em, value) < 32 {
        build_int_z_extend(em, context, value, IType::I32, "widen")
    } else {
        value
    }
}

/// The requests that print a value: the type `i32 (i8*, ...)` is made, and
/// `printf` is looked up and declared with that type if the module lacks it, the format `"%d\n"` is made as the global `fmt`, the
/// value is widened to `i32` if it is narrower (giving `arg`), and `printf`
/// is called on the format and `arg`.
pub open spec fn print_requests<'ctx>(
    printf_ty: FunctionType<'ctx>,
    found: Option<FunctionValue<'ctx>>,
    printf: FunctionValue<'ctx>,
    fmt: GlobalValue<'ctx>,
    value: IntValue<'ctx>,
    arg: IntValue<'ctx>,
    w: u32,
) -> Seq<Request<'ctx>> {
    seq![
        Request::FnType { fn_ty: printf_ty, ret: IType::I32, params: seq![ParamType::BytePtr], var_args: true },
        Request::LookupFunction { name: "printf"@, found },
    ] + (if found is None {
        seq![Request::AddFunction { function: printf, name: "printf"@, fn_ty: printf_ty }]
    } else {
        Seq::empty()
    }) + seq![Request::GlobalString { global: fmt, text: "%d\n"@, name: "fmt"@ }] + (if w < 32 {
        seq![Request::ZExt { result: arg, value, ty: IType::I32 }]
    } else {
        Seq::empty()
    }) + seq![Request::Call { function: printf, format: fmt, arg }]
}

/// The record `after` extends `before` by printing `value` of width `w`.
pub open spec fn prints<'ctx>(before: Seq<Request<'ctx>>, after: Seq<Request<'ctx>>, value: IntValue<'ctx>, w: u32) -> bool {
    exists|
        printf_ty: FunctionType<'ctx>,
        found: Option<FunctionValue<'ctx>>,
        printf: FunctionValue<'ctx>,
        fmt: GlobalValue<'ctx>,
        arg: IntValue<'ctx>,
    |
        #![trigger print_requests(printf_ty, found, printf, fmt, value, arg, w)]
        {
            &&& (found matches Some(f) ==> f == printf)
            &&& (w >= 32 ==> arg == value)
            &&& after == before + print_requests(printf_ty, found, printf, fmt, value, arg, w)
        }
}

/// Prints the program's result with `printf` (declared on first use), so
/// that running the compiled program shows it.
fn print_result<'ctx>(context: &'ctx Context, module: &Module<'ctx>, em: &mut Emitter<'ctx>, result: IntValue<'ctx>)
    requires
        old(em).is_positioned(),
        old(em).widths().contains_key(result),
    ensures
        final(em).is_positioned(),
        prints(old(em)@, final(em)@, result, old(em).widths()[result]),
{
    let ghost log0 = em@;
    let ghost w = em.widths()[result];
    let printf_params = [ParamType::BytePtr];
    let printf_type = fn_type(em, context, IType::I32, &printf_params, true);
    let found = get_function(em, module, "printf");
    let printf_fn = match found {
        Some(f) => f,
        None => add_function(em, module, "printf", printf_type),
    };
    let ghost log1 = em@;
    let fmt = build_global_string_ptr(em, "%d\n", "fmt");
    let ghost log2 = em@;
    let ghost widths2 = em.widths();
    let arg = widen_to_i32(context, em, result);
    let ghost log3 = em@;
    build_call(em, printf_fn, fmt, arg, "printf_call");
    proof {
        assert(widths2[result] == w);
        assert(printf_params@ =~= seq![ParamType::BytePtr]);
        assert(em@ =~= log0 + print_requests(printf_type, found, printf_fn, fmt, result, arg, w));
    }
}

proof fn lemma_blocks_instrs_take(blocks: Seq<Block>, i: int)
    requires
        0 <= i < blocks.len(),
    ensures
        blocks_instrs(blocks.take(i + 1)) == blocks_instrs(blocks.take(i)) + blocks[i].instructions@,
    decreases i,
{
    if i == 0 {
        assert(blocks.take(1).drop_first() =~= Seq::<Block>::empty());
        assert(blocks.take(0) =~= Seq::<Block>::empty());
        assert(blocks.take(1)[0] == blocks[0]);
        assert(blocks_instrs(Seq::<Block>::empty()) == Seq::<Instr>::empty());
        assert(blocks_instrs(blocks.take(1)) =~= blocks[0].instructions@);
        assert(blocks_instrs(blocks.take(0)) + blocks[0].instructions@ =~= blocks[0].instructions@);
    } else {
        lemma_blocks_instrs_take(blocks.drop_first(), i - 1);
        assert(blocks.take(i + 1).drop_first() =~= blocks.drop_first().take(i));
        assert(blocks.take(i).drop_first() =~= blocks.drop_first().take(i - 1));
        assert(blocks.drop_first()[i - 1] == blocks[i]);
        assert(blocks_instrs(blocks.take(i + 1)) =~= blocks_instrs(blocks.take(i)) + blocks[i].instructions@);
    }
}


// ---------------------------------------------------------------------------
// The module as a whole.
// ---------------------------------------------------------------------------

/// Emitting the finished `blocks` in order, each at the end of the LLVM
/// block that `labels` gives its label, with the registers holding `regs`,
/// extends `before` to `after` and leaves the registers holding `regs_after`.
pub open spec fn emits_blocks<'ctx>(
    regs: Map<Register, IntValue<'ctx>>,
    widths: Map<IntValue<'ctx>, u32>,
    blocks: Seq<Block>,
    labels: Map<Label, BasicBlock<'ctx>>,
    before: Seq<Request<'ctx>>,
    after: Seq<Request<'ctx>>,
    regs_after: Map<Register, IntValue<'ctx>>,
    widths_after: Map<IntValue<'ctx>, u32>,
) -> bool
    decreases blocks.len(),
{
    if blocks.len() == 0 {
        after == before && regs_after == regs && widths_after == widths
    } else {
        exists|mid: Seq<Request<'ctx>>, r1: Map<Register, IntValue<'ctx>>, w1: Map<IntValue<'ctx>, u32>|
            #![trigger emits(regs, widths, blocks[0].instructions@, before.push(Request::PositionAtEnd { block: labels[blocks[0].label] }), mid, r1, w1)]
            emits(
                regs,
                widths,
                blocks[0].instructions@,
                before.push(Request::PositionAtEnd { block: labels[blocks[0].label] }),
                mid,
                r1,
                w1,
            ) && emits_blocks(r1, w1, blocks.drop_first(), labels, mid, after, regs_after, widths_after)
    }
}

proof fn lemma_emits_blocks_push<'ctx>(
    regs: Map<Register, IntValue<'ctx>>,
    w0: Map<IntValue<'ctx>, u32>,
    blocks: Seq<Block>,
    b: Block,
    labels: Map<Label, BasicBlock<'ctx>>,
    l0: Seq<Request<'ctx>>,
    l1: Seq<Request<'ctx>>,
    l2: Seq<Request<'ctx>>,
    r1: Map<Register, IntValue<'ctx>>,
    w1: Map<IntValue<'ctx>, u32>,
    r2: Map<Register, IntValue<'ctx>>,
    w2: Map<IntValue<'ctx>, u32>,
)
    requires
        emits_blocks(regs, w0, blocks, labels, l0, l1, r1, w1),
        emits(r1, w1, b.instructions@, l1.push(Request::PositionAtEnd { block: labels[b.label] }), l2, r2, w2),
    ensures
        emits_blocks(regs, w0, blocks.push(b), labels, l0, l2, r2, w2),
    decreases blocks.len(),
{
    let bs = blocks.push(b);
    if blocks.len() == 0 {
        assert(bs.drop_first() =~= Seq::<Block>::empty());
        assert(bs[0] == b);
        assert(emits_blocks(r2, w2, bs.drop_first(), labels, l2, l2, r2, w2));
    } else {
        let (mid, m1, v1) = choose|mid: Seq<Request<'ctx>>, m1: Map<Register, IntValue<'ctx>>, v1: Map<IntValue<'ctx>, u32>|
            #![trigger emits(regs, w0, blocks[0].instructions@, l0.push(Request::PositionAtEnd { block: labels[blocks[0].label] }), mid, m1, v1)]
            emits(
                regs,
                w0,
                blocks[0].instructions@,
                l0.push(Request::PositionAtEnd { block: labels[blocks[0].label] }),
                mid,
                m1,
                v1,
            ) && emits_blocks(m1, v1, blocks.drop_first(), labels, mid, l1, r1, w1);
        lemma_emits_blocks_push(m1, v1, blocks.drop_first(), b, labels, mid, l1, l2, r1, w1, r2, w2);
        assert(bs.drop_first() =~= blocks.drop_first().push(b));
        assert(bs[0] == blocks[0]);
    }
}

/// The blocks appended to `main` for the finished blocks, in order, each
/// named `label_N` after its label.
pub open spec fn appended_blocks<'ctx>(
    main: FunctionValue<'ctx>,
    blocks: Seq<Block>,
    bbs: Seq<BasicBlock<'ctx>>,
) -> Seq<Request<'ctx>> {
    Seq::new(
        blocks.len(),
        |j: int| Request::AppendBlock { function: main, block: bbs[j], name: label_text(blocks[j].label) },
    )
}

/// The handles and intermediate records of building `main`.
pub ghost struct MainParts<'ctx> {
    pub main_ty: FunctionType<'ctx>,
    pub main: FunctionValue<'ctx>,
    pub bbs: Seq<BasicBlock<'ctx>>,
    pub tail: BasicBlock<'ctx>,
    pub labels: Map<Label, BasicBlock<'ctx>>,
    pub after_blocks: Seq<Request<'ctx>>,
    pub regs_blocks: Map<Register, IntValue<'ctx>>,
    pub widths_blocks: Map<IntValue<'ctx>, u32>,
    pub after_code: Seq<Request<'ctx>>,
    pub regs_code: Map<Register, IntValue<'ctx>>,
    pub widths_code: Map<IntValue<'ctx>, u32>,
    pub result: IntValue<'ctx>,
    pub zero: IntValue<'ctx>,
    pub after_print: Seq<Request<'ctx>>,
}

/// `labels` sends each label to a block appended under that label's name:
/// the open block for the unit's own label, else the last finished block
/// with that label.
pub open spec fn labels_named<'ctx>(cu: CompilationUnit, p: MainParts<'ctx>) -> bool {
    &&& p.labels.contains_key(cu.label) && p.labels[cu.label] == p.tail
    &&& forall|j: int| 0 <= j < cu.blocks@.len() ==> #[trigger] p.labels.contains_key(cu.blocks@[j].label)
    &&& forall|l: Label|
        #![trigger p.labels.contains_key(l)]
        p.labels.contains_key(l) && l != cu.label ==> exists|j: int|
            #![trigger cu.blocks@[j]]
            0 <= j < cu.blocks@.len() && cu.blocks@[j].label == l && p.bbs[j] == p.labels[l]
}

/// The record `log` builds `main` for `cu` with the parts `p`: `main` is
/// added as a function of type `i32 ()`; a block named `label_N` is appended
/// for each finished block in order, then one for the open block; each
/// finished block's code is emitted at the end of the block of its label,
/// then the open block's code at the end of the last block; the result is
/// printed once with `printf`, zero-extended to `i32` first if its width
/// (that of its constant's type, `1` for a comparison, else that of the left
/// operand) is under 32; and `main` returns the constant `0` of type `i32`.
pub open spec fn main_shape<'ctx>(cu: CompilationUnit, log: Seq<Request<'ctx>>, p: MainParts<'ctx>) -> bool {
    let header = seq![
        Request::FnType { fn_ty: p.main_ty, ret: IType::I32, params: Seq::empty(), var_args: false },
        Request::AddFunction { function: p.main, name: "main"@, fn_ty: p.main_ty },
    ] + appended_blocks(
        p.main,
        cu.blocks@,
        p.bbs,
    ) + seq![Request::AppendBlock { function: p.main, block: p.tail, name: label_text(cu.label) }];
    &&& p.bbs.len() == cu.blocks@.len()
    &&& labels_named(cu, p)
    &&& emits_blocks(
        Map::empty(),
        Map::empty(),
        cu.blocks@,
        p.labels,
        header,
        p.after_blocks,
        p.regs_blocks,
        p.widths_blocks,
    )
    &&& emits(
        p.regs_blocks,
        p.widths_blocks,
        cu.instructions@,
        p.after_blocks.push(Request::PositionAtEnd { block: p.tail }),
        p.after_code,
        p.regs_code,
        p.widths_code,
    )
    &&& operand_value(p.regs_code, cu.result, p.result)
    &&& prints(
        p.after_code + operand_requests(cu.result, p.result) + seq![
            Request::Const { result: p.zero, ty: IType::I32, bits: 0 },
        ],
        p.after_print,
        p.result,
        operand_widths(p.widths_code, cu.result, p.result).insert(p.zero, 32u32)[p.result],
    )
    &&& log == p.after_print.push(Request::Return { value: p.zero })
}

/// An LLVM module with the record of the requests that built it.
pub struct LlvmModule<'ctx> {
    pub module: Module<'ctx>,
    requests: Ghost<Seq<Request<'ctx>>>,
}

impl<'ctx> View for LlvmModule<'ctx> {
    type V = Seq<Request<'ctx>>;

    closed spec fn view(&self) -> Seq<Request<'ctx>> {
        self.requests@
    }
}

impl<'ctx> LlvmModule<'ctx> {
    /// The LLVM assembly of the module.
    pub fn print_to_string(&self) -> String {
        print_to_string(&self.module)
    }
}

/// Builds the module whose `main` runs the unit's blocks, then its open
/// block, prints the result and returns 0. `context` must outlive the module.
pub fn emit_llvm_module<'ctx>(context: &'ctx Context, cu: &CompilationUnit) -> (res: LlvmModule<'ctx>)
    requires
        unit_well_formed(*cu),
    ensures
        exists|p: MainParts<'ctx>| #[trigger] main_shape(*cu, res@, p),
{
    let module = create_module(context, "demo");
    let mut em = Emitter::new(context);
    let no_params: [ParamType; 0] = [];
    let main_type = fn_type(&mut em, context, IType::I32, &no_params, false);
    let main_fn = add_function(&mut em, &module, "main", main_type);
    let ghost log_h = em@;

    // One LLVM block per finished block, then the open block.
    let mut llvm_blocks: HashMap<Label, BasicBlock<'ctx>> = HashMap::new();
    let ghost mut bbs: Seq<BasicBlock<'ctx>> = Seq::empty();
    let mut i: usize = 0;
    proof {
        assert(em@ =~= log_h + appended_blocks(main_fn, cu.blocks@.take(0), bbs));
    }
    while i < cu.blocks.len()
        invariant
            i <= cu.blocks@.len(),
            bbs.len() == i,
            !em.is_positioned(),
            em.widths() == Map::<IntValue<'ctx>, u32>::empty(),
            em@ == log_h + appended_blocks(main_fn, cu.blocks@.take(i as int), bbs),
            forall|j: int| 0 <= j < i ==> llvm_blocks@.contains_key(#[trigger] cu.blocks@[j].label),
            forall|l: Label|
                #![trigger llvm_blocks@.contains_key(l)]
                llvm_blocks@.contains_key(l) ==> exists|j: int|
                    #![trigger cu.blocks@[j]]
                    0 <= j < i && cu.blocks@[j].label == l && bbs[j] == llvm_blocks@[l],
        decreases cu.blocks@.len() - i,
    {
        let b = &cu.blocks[i];
        let ghost before = em@;
        let bb = append_basic_block(&mut em, context, main_fn, string_of_label(b.label).as_str());
        llvm_blocks.insert(b.label, bb);
        proof {
            let old_bbs = bbs;
            bbs = bbs.push(bb);
            assert(appended_blocks(main_fn, cu.blocks@.take(i + 1), bbs) =~= appended_blocks(
                main_fn,
                cu.blocks@.take(i as int),
                old_bbs,
            ).push(Request::AppendBlock { function: main_fn, block: bb, name: label_text(b.label) }));
            assert forall|l: Label| #[trigger] llvm_blocks@.contains_key(l) implies exists|j: int|
                #![trigger cu.blocks@[j]]
                0 <= j < i + 1 && cu.blocks@[j].label == l && bbs[j] == llvm_blocks@[l] by {
                if l == b.label {
                    assert(cu.blocks@[i as int].label == l && bbs[i as int] == llvm_blocks@[l]);
                } else {
                    let j = choose|j: int|
                        #![trigger cu.blocks@[j]]
                        0 <= j < i && cu.blocks@[j].label == l && bbs[j] == old_bbs[j] && old_bbs[j]
                            == llvm_blocks@[l];
                    assert(cu.blocks@[j].label == l && bbs[j] == llvm_blocks@[l]);
                }
            }
        }
        i = i + 1;
    }
    proof {
        assert(cu.blocks@.take(i as int) =~= cu.blocks@);
    }
    let tail_bb = append_basic_block(&mut em, context, main_fn, string_of_label(cu.label).as_str());
    llvm_blocks.insert(cu.label, tail_bb);
    let ghost header = em@;
    let ghost labels = llvm_blocks@;

    // Emit the finished blocks, then the open one.
    let mut regs: HashMap<Register, IntValue<'ctx>> = HashMap::new();
    let mut i: usize = 0;
    proof {
        assert(cu.blocks@.skip(0) =~= cu.blocks@);
        assert(cu.blocks@.take(0) =~= Seq::<Block>::empty());
        assert(regs@.dom() =~= defs(blocks_instrs(Seq::<Block>::empty())));
        assert(regs@ =~= Map::<Register, IntValue<'ctx>>::empty());
    }
    while i < cu.blocks.len()
        invariant
            i <= cu.blocks@.len(),
            llvm_blocks@ == labels,
            forall|j: int| 0 <= j < cu.blocks@.len() ==> llvm_blocks@.contains_key(#[trigger] cu.blocks@[j].label),
            llvm_blocks@.contains_key(cu.label),
            defines_before_use(regs@.dom(), blocks_instrs(cu.blocks@.skip(i as int)) + cu.instructions@),
            regs@.dom() == defs(blocks_instrs(cu.blocks@.take(i as int))),
            i > 0 ==> em.is_positioned(),
            widths_known(em.widths(), regs@),
            emits_blocks(Map::empty(), Map::empty(), cu.blocks@.take(i as int), labels, header, em@, regs@, em.widths()),
        decreases cu.blocks@.len() - i,
    {
        let ghost rest = cu.blocks@.skip(i as int);
        let ghost regs1 = regs@;
        let ghost log1 = em@;
        let ghost w1 = em.widths();
        proof {
            assert(rest.drop_first() =~= cu.blocks@.skip(i + 1));
            assert(blocks_instrs(rest) + cu.instructions@ =~= rest[0].instructions@ + (blocks_instrs(
                rest.drop_first(),
            ) + cu.instructions@));
            crate::machine::lemma_defines_before_use_split(
                regs@.dom(),
                rest[0].instructions@,
                blocks_instrs(rest.drop_first()) + cu.instructions@,
            );
        }
        emit_block(context, &mut em, &llvm_blocks, &mut regs, &cu.blocks[i]);
        proof {
            lemma_blocks_instrs_take(cu.blocks@, i as int);
            crate::machine::lemma_defs_append(blocks_instrs(cu.blocks@.take(i as int)), cu.blocks@[i as int].instructions@);
            assert(cu.blocks@.take(i + 1) =~= cu.blocks@.take(i as int).push(cu.blocks@[i as int]));
            lemma_emits_blocks_push(
                Map::empty(),
                Map::empty(),
                cu.blocks@.take(i as int),
                cu.blocks@[i as int],
                labels,
                header,
                log1,
                em@,
                regs1,
                w1,
                regs@,
                em.widths(),
            );
        }
        i = i + 1;
    }
    proof {
        assert(cu.blocks@.skip(i as int) =~= Seq::<Block>::empty());
        assert(blocks_instrs(Seq::<Block>::empty()) + cu.instructions@ =~= cu.instructions@);
        assert(cu.blocks@.take(i as int) =~= cu.blocks@);
    }
    let ghost after_blocks = em@;
    let ghost regs_blocks = regs@;
    let ghost widths_blocks = em.widths();
    let tail = match llvm_blocks.get(&cu.label) {
        Some(bb) => *bb,
        None => {
            proof {
                assert(false);
            }
            return LlvmModule { module, requests: Ghost(em@) };
        },
    };
    em.position_at_end(tail);
    emit_instrs(context, &mut em, &llvm_blocks, &mut regs, &cu.instructions);
    proof {
        crate::machine::lemma_defs_append(blocks_instrs(cu.blocks@), cu.instructions@);
    }
    let ghost after_code = em@;
    let ghost regs_code = regs@;
    let ghost widths_code = em.widths();

    let ret = resolve(context, &mut em, &regs, &cu.result);
    let ret_i32 = const_int(&mut em, context, IType::I32, 0);
    let ghost before_print = em@;
    print_result(context, &module, &mut em, ret);
    let ghost after_print = em@;
    build_return(&mut em, ret_i32);
    let ghost p = MainParts {
        main_ty: main_type,
        main: main_fn,
        bbs,
        tail: tail_bb,
        labels,
        after_blocks,
        regs_blocks,
        widths_blocks,
        after_code,
        regs_code,
        widths_code,
        result: ret,
        zero: ret_i32,
        after_print,
    };
    proof {
        assert(before_print =~= after_code + operand_requests(cu.result, ret) + seq![
            Request::Const { result: ret_i32, ty: IType::I32, bits: 0 },
        ]);
        assert(no_params@ =~= Seq::<ParamType>::empty());
        assert(header =~= seq![
            Request::FnType { fn_ty: main_type, ret: IType::I32, params: Seq::empty(), var_args: false },
            Request::AddFunction { function: main_fn, name: "main"@, fn_ty: main_type },
        ] + appended_blocks(
            main_fn,
            cu.blocks@,
            bbs,
        ) + seq![Request::AppendBlock { function: main_fn, block: tail_bb, name: label_text(cu.label) }]);
        assert(p.bbs.len() == cu.blocks@.len());
        assert(labels_named(*cu, p));
        assert(operand_value(p.regs_code, cu.result, p.result));
        assert(em@ == p.after_print.push(Request::Return { value: p.zero }));
        assert(main_shape(*cu, em@, p));
    }
    let res = LlvmModule { module, requests: Ghost(em@) };
    proof {
        assert(res@ == em@);
        assert(main_shape(*cu, res@, p));
    }
    res
}

/// The LLVM assembly of the module built for a unit; producing it never
/// fails.
pub fn llvm_as_string(cu: &CompilationUnit) -> (res: std::io::Result<String>)
    requires
        unit_well_formed(*cu),
    ensures
        res is Ok,
{
    let context = context_create();
    let module = emit_llvm_module(&context, cu);
    Ok(module.print_to_string())
}

} // verus!
