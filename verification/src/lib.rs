pub mod ast;
pub mod ast_typed;
pub mod codegen;
pub mod environment;
pub mod interpreter;
pub mod typing;
pub mod util;
pub mod machine;
pub mod grammar;
pub mod llvm_utils;
pub mod symbols;
pub mod llvm_generator;
pub mod grouping;
