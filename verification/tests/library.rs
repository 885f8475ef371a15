use std::rc::Rc;

use inkwell::context::Context;
use llang::ast::{AstData, BinOp, TypeData, UnOp};
use llang::ast_typed::AstTypedData;
use llang::codegen::{
    compile_in, generate_instr, has_registers_for, llvm_type_of, Block, CmpOp, Compile,
    CompilationUnit, IType, Instr, LlvmResult, RegisterStack,
};
use llang::environment::Env;
use llang::grammar::{CondParser, ParseError};
use llang::interpreter::{eval_checked, Eval, Value};
use llang::llvm_generator::{emit_llvm_module, is_well_formed, llvm_as_string};
use llang::llvm_utils::{
    compilation_unit_lines, defined_type, string_of_cmp_op, string_of_i64, string_of_instr,
    string_of_label, string_of_register, string_of_result, string_of_type, try_type_of_register,
    try_type_of_result,
};
use llang::symbols::{new_symbol, string_of_symbol, Interner};
use llang::typing::TypeCheck;

fn parse(s: &str) -> llang::ast::Ast {
    CondParser::new().parse(s).unwrap()
}

fn num(n: i64) -> Rc<AstData> {
    Rc::new(AstData::Num(n))
}

fn eval_str(s: &str) -> Result<Value, String> {
    parse(s).eval(Rc::new(Env::new()))
}

fn type_error(s: &str) -> String {
    parse(s).type_check(Rc::new(Env::new())).unwrap_err()
}

fn compile_str(s: &str) -> Result<CompilationUnit, String> {
    parse(s).type_check(Rc::new(Env::new())).unwrap().compile()
}

fn ir_of(s: &str) -> String {
    let cu = compile_str(s).unwrap();
    assert!(is_well_formed(&cu));
    let context = Context::create();
    let module = emit_llvm_module(&context, &cu);
    module.print_to_string().to_string()
}

// ---- parser ----

#[test]
fn parser_builds_left_associative_trees() {
    assert_eq!(
        parse("10 - 4 - 3"),
        Rc::new(AstData::BinOp(
            BinOp::Sub,
            Rc::new(AstData::BinOp(BinOp::Sub, num(10), num(4))),
            num(3)
        ))
    );
}

#[test]
fn parser_gives_and_precedence_over_or() {
    assert_eq!(
        parse("true || false && true"),
        Rc::new(AstData::BinOp(
            BinOp::Or,
            Rc::new(AstData::Bool(true)),
            Rc::new(AstData::BinOp(
                BinOp::And,
                Rc::new(AstData::Bool(false)),
                Rc::new(AstData::Bool(true))
            ))
        ))
    );
}

#[test]
fn parser_reads_prefix_operators() {
    assert_eq!(
        parse("- not 1"),
        Rc::new(AstData::UnOp(UnOp::Neg, Rc::new(AstData::UnOp(UnOp::Not, num(1)))))
    );
    assert_eq!(parse("\t( 7 )\n"), num(7));
}

#[test]
fn parser_reports_where_it_fails() {
    let p = CondParser::new();
    assert_eq!(p.parse("3 +"), Err(ParseError::UnrecognizedEof { location: 3 }));
    assert_eq!(p.parse("3 $ 4"), Err(ParseError::InvalidToken { location: 2 }));
    assert_eq!(p.parse("3 4"), Err(ParseError::UnrecognizedToken { location: 2 }));
    assert_eq!(p.parse("x + 1"), Err(ParseError::InvalidToken { location: 0 }));
    assert_eq!(p.parse(")"), Err(ParseError::UnrecognizedToken { location: 0 }));
    assert_eq!(p.parse("(1 + 2"), Err(ParseError::UnrecognizedEof { location: 6 }));
    assert_eq!(p.parse(""), Err(ParseError::UnrecognizedEof { location: 0 }));
    assert_eq!(
        p.parse("99999999999999999999"),
        Err(ParseError::IntegerOverflow { location: 0 })
    );
    assert_eq!(p.parse("9223372036854775807"), Ok(num(i64::MAX)));
}

#[test]
fn parentheses_keep_the_tree() {
    for s in ["1 + 2 * 3", "not true && false", "- 4 < 5 = true", "((8))"] {
        let inner = parse(s);
        let outer = parse(&format!("({})", s));
        assert_eq!(inner, outer);
    }
}

// ---- interpreter ----

#[test]
fn evaluation_errors_name_their_cause() {
    assert_eq!(eval_str("true + 1"), Err("Expecting integers".to_string()));
    assert_eq!(eval_str("- true"), Err("Expecting an integer".to_string()));
    assert_eq!(eval_str("not 3"), Err("Expecting a boolean".to_string()));
    assert_eq!(
        eval_str("true && false"),
        Err("Internal Error, this should not happen".to_string())
    );
    assert_eq!(eval_str("(1 / 0) + true"), Err("Division by zero".to_string()));
}

#[test]
fn evaluation_mixes_precedence_levels() {
    assert_eq!(eval_str("2 * 3 + 4"), Ok(Value::Int(10)));
    assert_eq!(eval_str("- - 5"), Ok(Value::Int(5)));
    assert_eq!(eval_str("-7 / 2"), Ok(Value::Int(-3)));
    assert_eq!(eval_str("1 + 2 = 3"), Ok(Value::Bool(true)));
    assert_eq!(eval_str("3 = true"), Ok(Value::Bool(false)));
}

#[test]
fn checked_evaluation_reports_overflow() {
    let env = || Rc::new(Env::new());
    assert_eq!(eval_checked(&parse("9223372036854775807 + 1"), env()), None);
    assert_eq!(eval_checked(&parse("-(0 - 9223372036854775807 - 1)"), env()), None);
    assert_eq!(
        eval_checked(&parse("0 - 9223372036854775807 - 1"), env()),
        Some(Ok(Value::Int(i64::MIN)))
    );
    // the first error met ends the evaluation, before the overflow
    assert_eq!(
        eval_checked(&parse("(1 / 0) + 9223372036854775807 * 2"), env()),
        Some(Err("Division by zero".to_string()))
    );
}

// ---- type checker ----

#[test]
fn type_errors_name_their_cause() {
    assert_eq!(type_error("1 + true"), "Type error: expected Int");
    assert_eq!(type_error("1 && true"), "Type error: expected Bool");
    assert_eq!(type_error("1 = true"), "Type error: expected same type for comparison");
    assert_eq!(type_error("- (1 < 2)"), "Type error: expected Int");
    assert_eq!(type_error("not 1"), "Type error: expected Bool");
    // the operands are checked before the operator
    assert_eq!(type_error("(not 1) + true"), "Type error: expected Bool");
}

#[test]
fn type_checking_annotates_every_operator() {
    let typed = parse("-(1 < 2 = true)").type_check(Rc::new(Env::new()));
    assert!(typed.is_err());
    let typed = parse("not (1 < 2 = true)").type_check(Rc::new(Env::new())).unwrap();
    match &*typed {
        AstTypedData::UnOp(UnOp::Not, inner, t) => {
            assert_eq!(**t, TypeData::Bool);
            assert_eq!(*inner.type_of(), TypeData::Bool);
        }
        other => panic!("unexpected tree {:?}", other),
    }
}

#[test]
fn well_typed_values_have_their_type() {
    for s in ["(1 < 2) = (3 < 4)", "6 * 7", "not (2 < 1)", "-(3 + 4)"] {
        let t = parse(s).type_check(Rc::new(Env::new())).unwrap().type_of();
        let v = eval_str(s).unwrap();
        let vt = match v {
            Value::Int(_) => TypeData::Int,
            Value::Bool(_) => TypeData::Bool,
        };
        assert_eq!(*t, vt, "{}", s);
    }
}

// ---- code generation ----

#[test]
fn compiles_operators_in_post_order() {
    let cu = compile_str("(7 - 2) * -3").unwrap();
    assert_eq!(
        cu.instructions,
        vec![
            Instr::Subi32(0, LlvmResult::IConst(7, IType::I32), LlvmResult::IConst(2, IType::I32)),
            Instr::Muli32(1, LlvmResult::IConst(3, IType::I32), LlvmResult::IConst(-1, IType::I32)),
            Instr::Muli32(2, LlvmResult::Register(0), LlvmResult::Register(1)),
        ]
    );
    assert_eq!(cu.result, LlvmResult::Register(2));
    assert_eq!(cu.label, 0);
}

#[test]
fn compiles_literals_and_comparisons() {
    let cu = compile_str("true").unwrap();
    assert_eq!(cu.result, LlvmResult::IConst(1, IType::I1));
    assert!(cu.instructions.is_empty());
    let cu = compile_str("not (1 <> 2)").unwrap();
    assert_eq!(
        cu.instructions,
        vec![
            Instr::Cmp(
                0,
                CmpOp::Ne,
                LlvmResult::IConst(1, IType::I32),
                LlvmResult::IConst(2, IType::I32),
                IType::I32
            ),
            Instr::Xor(1, LlvmResult::Register(0), LlvmResult::IConst(1, IType::I1)),
        ]
    );
}

#[test]
fn logical_operators_do_not_compile() {
    assert_eq!(
        compile_str("(1 < 2) && (3 < 4)").err(),
        Some("Not a binary operation that maps to one LLVM instruction".to_string())
    );
    assert_eq!(
        generate_instr(&BinOp::Or, 0, LlvmResult::Register(1), LlvmResult::Register(2), IType::I1).err(),
        Some("Not a binary operation that maps to one LLVM instruction".to_string())
    );
    assert_eq!(
        generate_instr(&BinOp::Ge, 4, LlvmResult::Register(1), LlvmResult::Register(2), IType::I32),
        Ok(Instr::Cmp(4, CmpOp::Ge, LlvmResult::Register(1), LlvmResult::Register(2), IType::I32))
    );
}

#[test]
fn boolean_comparisons_carry_the_operand_type() {
    let cu = compile_str("true = false").unwrap();
    assert_eq!(
        cu.instructions,
        vec![Instr::Cmp(
            0,
            CmpOp::Eq,
            LlvmResult::IConst(1, IType::I1),
            LlvmResult::IConst(0, IType::I1),
            IType::I1
        )]
    );
    assert_eq!(string_of_instr(&cu.instructions[0]), "%0 = icmp eq i1 1, 0");
    let cu = compile_str("(1 < 2) <> (3 = 3)").unwrap();
    assert_eq!(
        cu.instructions[2],
        Instr::Cmp(
            2,
            CmpOp::Ne,
            LlvmResult::Register(0),
            LlvmResult::Register(1),
            IType::I1
        )
    );
    assert_eq!(try_type_of_result(&cu), Some(IType::I1));
    assert_eq!(eval_str("(1 < 2) <> (3 = 3)"), Ok(Value::Bool(false)));
}

#[test]
fn register_numbering_runs_on_in_a_scope() {
    let typed = parse("1 + 2").type_check(Rc::new(Env::new())).unwrap();
    let mut regs = RegisterStack::new();
    assert!(has_registers_for(&regs, &typed));
    let first = compile_in(&typed, &mut regs).unwrap();
    let second = compile_in(&typed, &mut regs).unwrap();
    assert_eq!(first.result, LlvmResult::Register(0));
    assert_eq!(second.result, LlvmResult::Register(1));
    assert_eq!(regs.new_reg(), 2);
    assert_eq!(regs.new_label(), 0);
    assert_eq!(regs.new_label(), 1);
    regs.reg_begin_scope();
    assert_eq!(regs.new_reg(), 0);
    regs.reg_end_scope();
    assert_eq!(regs.new_reg(), 3);
    regs.reg_end_scope();
    assert!(!has_registers_for(&regs, &typed));
}

#[test]
fn compiled_code_computes_the_evaluated_value() {
    // the generated module prints the value that evaluation gives
    let ir = ir_of("(7 - 2) * 3");
    assert!(ir.contains("i32 15)"), "{}", ir);
    let ir = ir_of("-(4 / 2)");
    assert!(ir.contains("i32 -2)"), "{}", ir);
    let ir = ir_of("3 < 4");
    assert!(ir.contains("i32 1)"), "{}", ir);
    let ir = ir_of("not (3 < 4)");
    assert!(ir.contains("i32 0)"), "{}", ir);
    let ir = ir_of("(1 < 2) = (3 > 4)");
    assert!(ir.contains("i32 0)"), "{}", ir);
    let ir = ir_of("true <> false");
    assert!(ir.contains("i32 1)"), "{}", ir);
}

#[test]
fn units_must_define_registers_before_use() {
    let cu = compile_str("(1 + 2) * (3 - 4)").unwrap();
    assert!(is_well_formed(&cu));
    let bad = CompilationUnit::new(
        LlvmResult::Register(1),
        0,
        vec![Instr::Addi32(1, LlvmResult::Register(0), LlvmResult::IConst(1, IType::I32))],
        Vec::new(),
    );
    assert!(!is_well_formed(&bad));
    let undefined_result = CompilationUnit::new(LlvmResult::Register(9), 0, Vec::new(), Vec::new());
    assert!(!is_well_formed(&undefined_result));
    let in_blocks = CompilationUnit::new(
        LlvmResult::Register(1),
        1,
        vec![Instr::Xor(1, LlvmResult::Register(0), LlvmResult::IConst(1, IType::I1))],
        vec![Block {
            label: 0,
            instructions: vec![Instr::Cmp(
                0,
                CmpOp::Lt,
                LlvmResult::IConst(1, IType::I32),
                LlvmResult::IConst(2, IType::I32),
                IType::I32,
            )],
        }],
    );
    assert!(is_well_formed(&in_blocks));
    let ir = llvm_as_string(&in_blocks).unwrap();
    assert!(ir.contains("label_0:"), "{}", ir);
    assert!(ir.contains("label_1:"), "{}", ir);
}

#[test]
fn llvm_text_of_a_unit() {
    let ir = llvm_as_string(&compile_str("6 * 7").unwrap()).unwrap();
    assert!(ir.contains("define i32 @main()"), "{}", ir);
    assert!(ir.contains("i32 42)"), "{}", ir);
    assert!(ir.contains("ret i32 0"), "{}", ir);
}

// ---- listing ----

#[test]
fn prints_registers_labels_and_operands() {
    assert_eq!(string_of_register(12), "%12");
    assert_eq!(string_of_label(0), "label_0");
    assert_eq!(string_of_type(&IType::I1), "i1");
    assert_eq!(string_of_type(&IType::I32), "i32");
    assert_eq!(string_of_cmp_op(CmpOp::Le), "sle");
    assert_eq!(string_of_result(&LlvmResult::IConst(-45, IType::I32)), "-45");
    assert_eq!(string_of_result(&LlvmResult::Register(3)), "%3");
    assert_eq!(string_of_i64(i64::MIN), "-9223372036854775808");
    assert_eq!(string_of_i64(0), "0");
    assert_eq!(string_of_i64(1000), "1000");
}

#[test]
fn prints_instructions() {
    let c = |n| LlvmResult::IConst(n, IType::I32);
    let r = LlvmResult::Register;
    assert_eq!(string_of_instr(&Instr::Addi32(2, r(0), c(5))), "%2 = add nsw i32 %0, 5");
    assert_eq!(string_of_instr(&Instr::Subi32(2, c(1), c(5))), "%2 = sub nsw i32 1, 5");
    assert_eq!(string_of_instr(&Instr::Muli32(3, r(1), c(-1))), "%3 = mul nsw i32 %1, -1");
    assert_eq!(string_of_instr(&Instr::Divi32(4, r(1), r(2))), "%4 = sdiv i32 %1, %2");
    assert_eq!(
        string_of_instr(&Instr::Cmp(5, CmpOp::Gt, r(1), c(0), IType::I32)),
        "%5 = icmp sgt i32 %1, 0"
    );
    assert_eq!(
        string_of_instr(&Instr::Xor(6, r(5), LlvmResult::IConst(1, IType::I1))),
        "%6 = xor i1 %5, 1"
    );
}

#[test]
fn lists_a_unit_as_main() {
    let cu = compile_str("1 + 2").unwrap();
    assert_eq!(
        compilation_unit_lines(&cu),
        vec![
            "define i32 @main() {",
            "label_0:",
            "  %0 = add nsw i32 1, 2",
            "  call i32 (ptr, ...) @printf(ptr @fmt, i32 %0)",
            "  ret i32 0",
            "}",
        ]
    );
    let cu = compile_str("1 < 2").unwrap();
    assert_eq!(
        compilation_unit_lines(&cu),
        vec![
            "define i32 @main() {",
            "label_0:",
            "  %0 = icmp slt i32 1, 2",
            "  %widen = zext i1 %0 to i32",
            "  call i32 (ptr, ...) @printf(ptr @fmt, i32 %widen)",
            "  ret i32 0",
            "}",
        ]
    );
    let cu = CompilationUnit::new(LlvmResult::Register(7), 2, Vec::new(), Vec::new());
    assert_eq!(
        compilation_unit_lines(&cu),
        vec![
            "define i32 @main() {",
            "label_2:",
            "  ; result %7 was never defined by an instruction in this unit",
            "  ret i32 0",
            "}",
        ]
    );
}

#[test]
fn finds_the_type_of_registers() {
    let cu = compile_str("(1 + 2) < 4").unwrap();
    assert_eq!(try_type_of_register(&cu, 0), Some(IType::I32));
    assert_eq!(try_type_of_register(&cu, 1), Some(IType::I1));
    assert_eq!(try_type_of_register(&cu, 2), None);
    assert_eq!(try_type_of_result(&cu), Some(IType::I1));
    assert_eq!(
        defined_type(&Instr::Divi32(9, LlvmResult::Register(0), LlvmResult::Register(1))),
        Some((9, IType::I32))
    );
    assert_eq!(llvm_type_of(&Rc::new(TypeData::Bool)), IType::I1);
    assert_eq!(llvm_type_of(&Rc::new(TypeData::Int)), IType::I32);
}

#[test]
fn compiled_results_have_the_checked_type() {
    for (s, t) in [
        ("5", IType::I32),
        ("true", IType::I1),
        ("- 5", IType::I32),
        ("not false", IType::I1),
        ("2 * 3 - 1", IType::I32),
        ("1 <> 2", IType::I1),
        ("(1 < 2) = true", IType::I1),
    ] {
        let typed = parse(s).type_check(Rc::new(Env::new())).unwrap();
        let cu = typed.compile().unwrap();
        assert_eq!(try_type_of_result(&cu), Some(t));
        assert_eq!(llvm_type_of(&typed.type_of()), t);
    }
}

// ---- environments and symbols ----

#[test]
fn environment_reads_back_what_was_bound() {
    let env: Env<i64, Value> = Env::new();
    let env = env.push(1, Value::Int(10)).push(2, Value::Bool(true)).push(1, Value::Int(11));
    assert_eq!(env.find(1), Ok(Value::Int(11)));
    assert_eq!(env.find(2), Ok(Value::Bool(true)));
    assert_eq!(env.find(7), Err("Variable not found 7".to_string()));
}

#[test]
fn interner_gives_one_symbol_per_name() {
    let mut names = Interner::new();
    let a = new_symbol(&mut names, "x");
    let b = new_symbol(&mut names, "y");
    assert_eq!(new_symbol(&mut names, "x"), a);
    assert_ne!(a, b);
    assert_eq!(string_of_symbol(&names, a), "x");
    assert_eq!(string_of_symbol(&names, b), "y");
    assert_eq!(string_of_symbol(&names, 5), "<unknown symbol 5>");
    assert_eq!(string_of_symbol(&names, -1), "<unknown symbol -1>");
}
