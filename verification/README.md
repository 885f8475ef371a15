# llang — L0

L0 is a small expression language: integer and boolean literals, the
arithmetic operators `+ - * /`, comparisons, `&&`, `||`, unary `-` and
`not`, and parentheses. This crate parses L0 text, type-checks and evaluates
expressions, and compiles them to LLVM IR through inkwell. The library is
written in Verus and its contracts are proved.

Layout of `src/`:

- `ast`, `ast_typed`: syntax trees, untyped and annotated with types.
- `grammar`: the lexer and the precedence-climbing parser, specified over
  the bytes of the text (`spec_parse`); `grouping` proves that parentheses
  never change the tree.
- `typing`: the type checker and the type-soundness theorem.
- `interpreter`: the evaluator, with checked 64-bit arithmetic.
- `environment`, `symbols`: association-list environments and the symbol
  interner.
- `codegen`: compilation to a three-address instruction list with an
  explicit register stack.
- `machine`: a model of the integer semantics of the emitted instructions,
  with the proofs that compiled code computes the evaluated value and
  defines every register before using it.
- `llvm_utils`: the textual form of instructions and units.
- `llvm_generator`: the inkwell calls that build an LLVM module; the
  emitter keeps a ghost record of the requests it makes, and the contracts
  state that record for each instruction and for the whole of `main`.

`app/` holds the read–eval–print loop and the file output.

The test that checks the text of the `printf` call (`declare i32
@printf(ptr, ...)`) is not included: it needs LLVM 15 or later, whose opaque
pointers print as `ptr`, and only LLVM 14 is available to build against here,
which prints the same declaration as `i32 (i8*, ...)`.
