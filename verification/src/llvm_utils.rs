use vstd::prelude::*;

use crate::codegen::{Block, CmpOp, CompilationUnit, IType, Instr, Label, LlvmResult, Register};

verus! {

// ---------------------------------------------------------------------------
// Decimal numerals.
// ---------------------------------------------------------------------------

pub open spec fn digit_char(d: nat) -> char {
    if d == 0 { '0' }
    else if d == 1 { '1' }
    else if d == 2 { '2' }
    else if d == 3 { '3' }
    else if d == 4 { '4' }
    else if d == 5 { '5' }
    else if d == 6 { '6' }
    else if d == 7 { '7' }
    else if d == 8 { '8' }
    else { '9' }
}

/// The decimal numeral of `n`, without leading zeros.
pub open spec fn decimal(n: nat) -> Seq<char>
    decreases n,
{
    if n < 10 {
        seq![digit_char(n)]
    } else {
        decimal(n / 10).push(digit_char(n % 10))
    }
}

/// The decimal numeral of `n`, with a `-` in front when it is negative.
pub open spec fn int_text(n: int) -> Seq<char> {
    if n < 0 {
        seq!['-'] + decimal((-n) as nat)
    } else {
        decimal(n as nat)
    }
}

fn digit_str(d: u64) -> (s: &'static str)
    requires
        d < 10,
    ensures
        s@ == seq![digit_char(d as nat)],
{
    proof {
        reveal_strlit("0");
        reveal_strlit("1");
        reveal_strlit("2");
        reveal_strlit("3");
        reveal_strlit("4");
        reveal_strlit("5");
        reveal_strlit("6");
        reveal_strlit("7");
        reveal_strlit("8");
        reveal_strlit("9");
    }
    if d == 0 { "0" }
    else if d == 1 { "1" }
    else if d == 2 { "2" }
    else if d == 3 { "3" }
    else if d == 4 { "4" }
    else if d == 5 { "5" }
    else if d == 6 { "6" }
    else if d == 7 { "7" }
    else if d == 8 { "8" }
    else { "9" }
}

/// Appends the decimal numeral of `n` to `out`.
fn push_decimal(out: &mut String, n: u64)
    ensures
        final(out)@ == old(out)@ + decimal(n as nat),
    decreases n,
{
    if n < 10 {
        out.append(digit_str(n));
    } else {
        push_decimal(out, n / 10);
        out.append(digit_str(n % 10));
        proof {
            assert(old(out)@ + decimal((n / 10) as nat) + seq![digit_char((n % 10) as nat)] =~= old(out)@
                + decimal(n as nat));
        }
    }
}

/// The decimal text of a signed integer.
pub fn string_of_i64(n: i64) -> (s: String)
    ensures
        s@ == int_text(n as int),
{
    let mut s = String::new();
    if n < 0 {
        s.append("-");
        proof {
            reveal_strlit("-");
        }
        let m: u64 = (0i128 - n as i128) as u64;
        push_decimal(&mut s, m);
    } else {
        push_decimal(&mut s, n as u64);
        proof {
            assert(Seq::<char>::empty() + decimal(n as nat) =~= decimal(n as nat));
        }
    }
    s
}

/// The decimal text of an unsigned integer.
pub fn string_of_u32(n: u32) -> (s: String)
    ensures
        s@ == decimal(n as nat),
{
    let mut s = String::new();
    push_decimal(&mut s, n as u64);
    proof {
        assert(Seq::<char>::empty() + decimal(n as nat) =~= decimal(n as nat));
    }
    s
}

// ---------------------------------------------------------------------------
// Text of registers, labels, types, operands and instructions.
// ---------------------------------------------------------------------------

pub open spec fn register_text(r: Register) -> Seq<char> {
    "%"@ + decimal(r as nat)
}

pub open spec fn label_text(l: Label) -> Seq<char> {
    "label_"@ + decimal(l as nat)
}

pub open spec fn type_text(t: IType) -> Seq<char> {
    match t {
        IType::I32 => "i32"@,
        IType::I1 => "i1"@,
    }
}

pub open spec fn cmp_op_text(op: CmpOp) -> Seq<char> {
    match op {
        CmpOp::Eq => "eq"@,
        CmpOp::Ne => "ne"@,
        CmpOp::Lt => "slt"@,
        CmpOp::Le => "sle"@,
        CmpOp::Gt => "sgt"@,
        CmpOp::Ge => "sge"@,
    }
}

pub open spec fn result_text(r: LlvmResult) -> Seq<char> {
    match r {
        LlvmResult::IConst(n, _) => int_text(n as int),
        LlvmResult::Register(reg) => register_text(reg),
    }
}

/// `%r = <opcode> <p1>, <p2>` for an instruction with two operands.
pub open spec fn binary_text(r: Register, opcode: Seq<char>, p1: LlvmResult, p2: LlvmResult) -> Seq<char> {
    register_text(r) + " = "@ + opcode + " "@ + result_text(p1) + ", "@ + result_text(p2)
}

/// The LLVM assembly of an instruction.
pub open spec fn instr_text(i: Instr) -> Seq<char> {
    match i {
        Instr::Addi32(r, p1, p2) => binary_text(r, "add nsw i32"@, p1, p2),
        Instr::Subi32(r, p1, p2) => binary_text(r, "sub nsw i32"@, p1, p2),
        Instr::Muli32(r, p1, p2) => binary_text(r, "mul nsw i32"@, p1, p2),
        Instr::Divi32(r, p1, p2) => binary_text(r, "sdiv i32"@, p1, p2),
        Instr::Cmp(r, op, p1, p2, t) => binary_text(
            r,
            "icmp "@ + cmp_op_text(op) + " "@ + type_text(t),
            p1,
            p2,
        ),
        Instr::Xor(r, p1, p2) => binary_text(r, "xor i1"@, p1, p2),
    }
}

pub fn string_of_register(r: Register) -> (s: String)
    ensures
        s@ == register_text(r),
{
    let mut s = String::from_str("%");
    s.append(string_of_u32(r).as_str());
    s
}

pub fn string_of_label(l: Label) -> (s: String)
    ensures
        s@ == label_text(l),
{
    let mut s = String::from_str("label_");
    s.append(string_of_u32(l).as_str());
    s
}

pub fn string_of_type(t: &IType) -> (s: String)
    ensures
        s@ == type_text(*t),
{
    match t {
        IType::I32 => String::from_str("i32"),
        IType::I1 => String::from_str("i1"),
    }
}

pub fn string_of_cmp_op(op: CmpOp) -> (s: &'static str)
    ensures
        s@ == cmp_op_text(op),
{
    match op {
        CmpOp::Eq => "eq",
        CmpOp::Ne => "ne",
        CmpOp::Lt => "slt",
        CmpOp::Le => "sle",
        CmpOp::Gt => "sgt",
        CmpOp::Ge => "sge",
    }
}

pub fn string_of_result(r: &LlvmResult) -> (s: String)
    ensures
        s@ == result_text(*r),
{
    match r {
        LlvmResult::IConst(n, _) => string_of_i64(*n),
        LlvmResult::Register(reg) => string_of_register(*reg),
    }
}

fn binary_string(r: Register, opcode: &str, p1: &LlvmResult, p2: &LlvmResult) -> (s: String)
    ensures
        s@ == binary_text(r, opcode@, *p1, *p2),
{
    let mut s = string_of_register(r);
    s.append(" = ");
    s.append(opcode);
    s.append(" ");
    s.append(string_of_result(p1).as_str());
    s.append(", ");
    s.append(string_of_result(p2).as_str());
    s
}

pub fn string_of_instr(instr: &Instr) -> (s: String)
    ensures
        s@ == instr_text(*instr),
{
    match instr {
        Instr::Addi32(r, p1, p2) => binary_string(*r, "add nsw i32", p1, p2),
        Instr::Subi32(r, p1, p2) => binary_string(*r, "sub nsw i32", p1, p2),
        Instr::Muli32(r, p1, p2) => binary_string(*r, "mul nsw i32", p1, p2),
        Instr::Divi32(r, p1, p2) => binary_string(*r, "sdiv i32", p1, p2),
        Instr::Cmp(r, op, p1, p2, t) => {
            let mut opcode = String::from_str("icmp ");
            opcode.append(string_of_cmp_op(*op));
            opcode.append(" ");
            opcode.append(string_of_type(t).as_str());
            binary_string(*r, opcode.as_str(), p1, p2)
        },
        Instr::Xor(r, p1, p2) => binary_string(*r, "xor i1", p1, p2),
    }
}

// ---------------------------------------------------------------------------
// Types of registers.
// ---------------------------------------------------------------------------

/// The register an instruction defines and its type: arithmetic gives an
/// `i32`, comparisons and `xor` give an `i1` whatever their operands are.
pub open spec fn spec_defined_type(instr: Instr) -> (Register, IType) {
    match instr {
        Instr::Addi32(r, ..) => (r, IType::I32),
        Instr::Subi32(r, ..) => (r, IType::I32),
        Instr::Muli32(r, ..) => (r, IType::I32),
        Instr::Divi32(r, ..) => (r, IType::I32),
        Instr::Xor(r, ..) => (r, IType::I1),
        Instr::Cmp(r, ..) => (r, IType::I1),
    }
}

pub fn defined_type(instr: &Instr) -> (res: Option<(Register, IType)>)
    ensures
        res == Some(spec_defined_type(*instr)),
{
    match instr {
        Instr::Addi32(r, ..) | Instr::Subi32(r, ..) | Instr::Muli32(r, ..) | Instr::Divi32(r, ..) =>
            Some((*r, IType::I32)),
        Instr::Xor(r, ..) | Instr::Cmp(r, ..) => Some((*r, IType::I1)),
    }
}

/// The instructions of the finished blocks, in order.
pub open spec fn blocks_instrs(blocks: Seq<Block>) -> Seq<Instr>
    decreases blocks.len(),
{
    if blocks.len() == 0 {
        Seq::empty()
    } else {
        blocks[0].instructions@ + blocks_instrs(blocks.drop_first())
    }
}

/// The type of the first instruction of `code` that defines `reg`.
pub open spec fn first_def_type(code: Seq<Instr>, reg: Register) -> Option<IType>
    decreases code.len(),
{
    if code.len() == 0 {
        None
    } else if spec_defined_type(code[0]).0 == reg {
        Some(spec_defined_type(code[0]).1)
    } else {
        first_def_type(code.drop_first(), reg)
    }
}

/// The instructions of a unit as they are searched: the open block first,
/// then the finished blocks.
pub open spec fn unit_instrs(cu: CompilationUnit) -> Seq<Instr> {
    cu.instructions@ + blocks_instrs(cu.blocks@)
}

fn first_def_in(code: &Vec<Instr>, reg: Register) -> (res: Option<IType>)
    ensures
        res == first_def_type(code@, reg),
{
    let mut i: usize = 0;
    proof {
        assert(code@.skip(0) =~= code@);
    }
    while i < code.len()
        invariant
            i <= code@.len(),
            first_def_type(code@, reg) == first_def_type(code@.skip(i as int), reg),
        decreases code@.len() - i,
    {
        proof {
            assert(code@.skip(i as int).drop_first() =~= code@.skip(i + 1));
        }
        if let Some((r, t)) = defined_type(&code[i]) {
            if r == reg {
                return Some(t);
            }
        }
        i = i + 1;
    }
    None
}

pub(crate) proof fn lemma_first_def_append(a: Seq<Instr>, b: Seq<Instr>, reg: Register)
    ensures
        first_def_type(a + b, reg) == match first_def_type(a, reg) {
            Some(t) => Some(t),
            None => first_def_type(b, reg),
        },
    decreases a.len(),
{
    if a.len() == 0 {
        assert(a + b =~= b);
    } else {
        assert((a + b).drop_first() =~= a.drop_first() + b);
        lemma_first_def_append(a.drop_first(), b, reg);
    }
}

/// The type of `reg` as the instruction of `cu` that defines it gives it,
/// or `None` if no instruction defines it.
pub fn try_type_of_register(cu: &CompilationUnit, reg: Register) -> (res: Option<IType>)
    ensures
        res == first_def_type(unit_instrs(*cu), reg),
{
    proof {
        lemma_first_def_append(cu.instructions@, blocks_instrs(cu.blocks@), reg);
    }
    if let Some(t) = first_def_in(&cu.instructions, reg) {
        return Some(t);
    }
    let mut i: usize = 0;
    proof {
        assert(cu.blocks@.skip(0) =~= cu.blocks@);
    }
    while i < cu.blocks.len()
        invariant
            i <= cu.blocks@.len(),
            first_def_type(cu.instructions@, reg) is None,
            first_def_type(unit_instrs(*cu), reg) == first_def_type(blocks_instrs(cu.blocks@.skip(i as int)), reg),
        decreases cu.blocks@.len() - i,
    {
        proof {
            let rest = cu.blocks@.skip(i as int);
            assert(rest.drop_first() =~= cu.blocks@.skip(i + 1));
            lemma_first_def_append(rest[0].instructions@, blocks_instrs(rest.drop_first()), reg);
        }
        if let Some(t) = first_def_in(&cu.blocks[i].instructions, reg) {
            return Some(t);
        }
        i = i + 1;
    }
    proof {
        assert(cu.blocks@.skip(i as int) =~= Seq::<Block>::empty());
    }
    None
}

/// The type of the unit's result: that of its constant, or that of the
/// register as its defining instruction gives it.
pub open spec fn result_type(cu: CompilationUnit) -> Option<IType> {
    match cu.result {
        LlvmResult::IConst(_, t) => Some(t),
        LlvmResult::Register(reg) => first_def_type(unit_instrs(cu), reg),
    }
}

pub fn try_type_of_result(cu: &CompilationUnit) -> (res: Option<IType>)
    ensures
        res == result_type(*cu),
{
    match &cu.result {
        LlvmResult::IConst(_, t) => Some(*t),
        LlvmResult::Register(reg) => try_type_of_register(cu, *reg),
    }
}

// ---------------------------------------------------------------------------
// Listing of a unit, one line per element.
// ---------------------------------------------------------------------------

/// `label_N:` then each instruction indented by two spaces.
pub open spec fn block_text(label: Label, instructions: Seq<Instr>) -> Seq<Seq<char>> {
    seq![label_text(label) + ":"@] + instructions.map_values(|i: Instr| "  "@ + instr_text(i))
}

/// The finished blocks, then the open one.
pub open spec fn blocks_text(blocks: Seq<Block>) -> Seq<Seq<char>>
    decreases blocks.len(),
{
    if blocks.len() == 0 {
        Seq::empty()
    } else {
        block_text(blocks[0].label, blocks[0].instructions@) + blocks_text(blocks.drop_first())
    }
}

pub open spec fn body_text(cu: CompilationUnit) -> Seq<Seq<char>> {
    blocks_text(cu.blocks@) + block_text(cu.label, cu.instructions@)
}

/// The lines that close `main`: print the result (widened to `i32` when it
/// is an `i1`), then return 0; a result that no instruction defines is
/// reported in a comment instead of printed.
pub open spec fn trailer_text(cu: CompilationUnit) -> Seq<Seq<char>> {
    let result = result_text(cu.result);
    match result_type(cu) {
        Some(IType::I1) => seq![
            "  %widen = zext i1 "@ + result + " to i32"@,
            "  call i32 (ptr, ...) @printf(ptr @fmt, i32 %widen)"@,
            "  ret i32 0"@,
        ],
        Some(IType::I32) => seq![
            "  call i32 (ptr, ...) @printf(ptr @fmt, i32 "@ + result + ")"@,
            "  ret i32 0"@,
        ],
        None => seq![
            "  ; result "@ + result + " was never defined by an instruction in this unit"@,
            "  ret i32 0"@,
        ],
    }
}

/// The listing of a unit as the function `main`.
pub open spec fn unit_text(cu: CompilationUnit) -> Seq<Seq<char>> {
    seq!["define i32 @main() {"@] + body_text(cu) + trailer_text(cu) + seq!["}"@]
}

/// The views of a list of lines.
pub open spec fn lines_view(lines: Seq<String>) -> Seq<Seq<char>> {
    lines.map_values(|l: String| l@)
}

/// Appends `line` to `out`.
fn push_line(out: &mut Vec<String>, line: String)
    ensures
        lines_view(final(out)@) == lines_view(old(out)@).push(line@),
{
    out.push(line);
    proof {
        assert(lines_view(out@) =~= lines_view(old(out)@).push(line@));
    }
}

/// Appends the lines of a block to `out`.
pub fn block_lines(out: &mut Vec<String>, label: Label, instructions: &Vec<Instr>)
    ensures
        lines_view(final(out)@) == lines_view(old(out)@) + block_text(label, instructions@),
{
    let mut head = string_of_label(label);
    head.append(":");
    push_line(out, head);
    let ghost start = lines_view(old(out)@);
    let ghost shown = instructions@.map_values(|i: Instr| "  "@ + instr_text(i));
    let mut k: usize = 0;
    while k < instructions.len()
        invariant
            k <= instructions@.len(),
            shown == instructions@.map_values(|i: Instr| "  "@ + instr_text(i)),
            lines_view(out@) == start + seq![label_text(label) + ":"@] + shown.take(k as int),
        decreases instructions@.len() - k,
    {
        let mut line = String::from_str("  ");
        line.append(string_of_instr(&instructions[k]).as_str());
        push_line(out, line);
        proof {
            assert(shown.take(k + 1) =~= shown.take(k as int).push(shown[k as int]));
        }
        k = k + 1;
    }
    proof {
        assert(shown.take(k as int) =~= shown);
        assert(start + seq![label_text(label) + ":"@] + shown =~= start + block_text(label, instructions@));
    }
}

/// Appends the lines of every finished block, then of the open block.
pub fn body_lines(out: &mut Vec<String>, cu: &CompilationUnit)
    ensures
        lines_view(final(out)@) == lines_view(old(out)@) + body_text(*cu),
{
    let ghost start = lines_view(old(out)@);
    let mut i: usize = 0;
    proof {
        lemma_blocks_text_split(cu.blocks@, 0);
        assert(cu.blocks@.take(0) =~= Seq::<Block>::empty());
        assert(start + blocks_text(cu.blocks@.take(0)) =~= start);
    }
    while i < cu.blocks.len()
        invariant
            i <= cu.blocks@.len(),
            blocks_text(cu.blocks@) == blocks_text(cu.blocks@.take(i as int)) + blocks_text(
                cu.blocks@.skip(i as int),
            ),
            lines_view(out@) == start + blocks_text(cu.blocks@.take(i as int)),
        decreases cu.blocks@.len() - i,
    {
        let b = &cu.blocks[i];
        block_lines(out, b.label, &b.instructions);
        proof {
            lemma_blocks_text_split(cu.blocks@, i as int);
            lemma_blocks_text_split(cu.blocks@, i + 1);
            lemma_blocks_text_take_push(cu.blocks@, i as int);
        }
        i = i + 1;
    }
    proof {
        assert(cu.blocks@.take(i as int) =~= cu.blocks@);
    }
    block_lines(out, cu.label, &cu.instructions);
    proof {
        assert(start + blocks_text(cu.blocks@) + block_text(cu.label, cu.instructions@) =~= start
            + body_text(*cu));
    }
}

proof fn lemma_blocks_text_append(a: Seq<Block>, b: Seq<Block>)
    ensures
        blocks_text(a + b) == blocks_text(a) + blocks_text(b),
    decreases a.len(),
{
    if a.len() == 0 {
        assert(a + b =~= b);
        assert(blocks_text(a) + blocks_text(b) =~= blocks_text(b));
    } else {
        assert((a + b).drop_first() =~= a.drop_first() + b);
        lemma_blocks_text_append(a.drop_first(), b);
        assert(blocks_text(a + b) =~= blocks_text(a) + blocks_text(b));
    }
}

proof fn lemma_blocks_text_split(blocks: Seq<Block>, i: int)
    requires
        0 <= i <= blocks.len(),
    ensures
        blocks_text(blocks) == blocks_text(blocks.take(i)) + blocks_text(blocks.skip(i)),
{
    assert(blocks =~= blocks.take(i) + blocks.skip(i));
    lemma_blocks_text_append(blocks.take(i), blocks.skip(i));
}

proof fn lemma_blocks_text_take_push(blocks: Seq<Block>, i: int)
    requires
        0 <= i < blocks.len(),
    ensures
        blocks_text(blocks.take(i + 1)) == blocks_text(blocks.take(i)) + block_text(
            blocks[i].label,
            blocks[i].instructions@,
        ),
{
    assert(blocks.take(i + 1) =~= blocks.take(i) + seq![blocks[i]]);
    lemma_blocks_text_append(blocks.take(i), seq![blocks[i]]);
    reveal_with_fuel(blocks_text, 2);
    assert(seq![blocks[i]].drop_first() =~= Seq::<Block>::empty());
    assert(blocks_text(seq![blocks[i]]) =~= block_text(blocks[i].label, blocks[i].instructions@));
}

/// The listing of a unit as the function `main`: every finished block,
/// then the open block, then the call that prints the result and the return.
pub fn compilation_unit_lines(cu: &CompilationUnit) -> (lines: Vec<String>)
    ensures
        lines_view(lines@) == unit_text(*cu),
{
    let mut out: Vec<String> = Vec::new();
    push_line(&mut out, String::from_str("define i32 @main() {"));
    body_lines(&mut out, cu);
    let result = string_of_result(&cu.result);
    match try_type_of_result(cu) {
        Some(IType::I1) => {
            let mut l = String::from_str("  %widen = zext i1 ");
            l.append(result.as_str());
            l.append(" to i32");
            push_line(&mut out, l);
            push_line(&mut out, String::from_str("  call i32 (ptr, ...) @printf(ptr @fmt, i32 %widen)"));
            push_line(&mut out, String::from_str("  ret i32 0"));
        },
        Some(IType::I32) => {
            let mut l = String::from_str("  call i32 (ptr, ...) @printf(ptr @fmt, i32 ");
            l.append(result.as_str());
            l.append(")");
            push_line(&mut out, l);
            push_line(&mut out, String::from_str("  ret i32 0"));
        },
        None => {
            let mut l = String::from_str("  ; result ");
            l.append(result.as_str());
            l.append(" was never defined by an instruction in this unit");
            push_line(&mut out, l);
            push_line(&mut out, String::from_str("  ret i32 0"));
        },
    }
    push_line(&mut out, String::from_str("}"));
    proof {
        assert(lines_view(out@) =~= unit_text(*cu));
    }
    out
}

} // verus!
