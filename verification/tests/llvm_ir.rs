use std::rc::Rc;

use inkwell::context::Context;
use llang::codegen::Compile;
use llang::environment::Env;
use llang::grammar;
use llang::typing::TypeCheck;

fn compile_ir(s: &str) -> String {
    let parsed = grammar::CondParser::new().parse(s).unwrap();
    let typed = parsed.type_check(Rc::new(Env::new())).unwrap();
    let cu = typed.compile().unwrap();
    assert!(llang::llvm_generator::is_well_formed(&cu));
    let context = Context::create();
    let module = llang::llvm_generator::emit_llvm_module(&context, &cu);
    module.print_to_string().to_string()
}

#[test]
fn emits_llvm_ir_for_addition() {
    let ir = compile_ir("1 + 2");

    assert!(ir.contains("define i32 @main()"), "{}", ir);
    // LLVM constant-folds `add` on two literal operands at build time,
    // so 1 + 2 shows up directly as the folded constant in the printf
    // call, not an `add` -- main itself always returns 0
    assert!(ir.contains("i32 3"), "{}", ir);
    assert!(ir.contains("ret i32 0"), "{}", ir);
}
