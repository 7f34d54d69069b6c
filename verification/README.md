# Kisumu Lang

A small scripting language — lexer, Pratt parser and tree-walking
interpreter — written in Verus, with each stage specified by mathematical
models and proved against them.

Layout:

- `src/token.rs` — token kinds, keywords, operator precedences.
- `src/lexer.rs` — the lexer. `LexState` is its model; `Lexer::next_token`
  is proved to give exactly `LexState::next_token`; lexing is proved to
  reach `Eof` within one token more than the characters left, after which
  every token is `Eof` and the line stays put.
- `src/ast.rs` — the syntax tree, its models and its printing.
- `src/parser.rs` — the parser. `PState` is its model and the grammar is a
  family of spec functions; `Parser::parse_program` is proved to build
  exactly the program and the error list that they describe.
- `src/interpreter.rs` — values, environments and the evaluator. The
  evaluator's meaning is the spec function `eval_program` over `IState`;
  laws state what evaluation keeps: a block or a call changes no existing
  environment and no name's meaning in the current one, a binding is seen
  by the next lookup, errors propagate, and a printed integer reads back as
  itself. Function values compare equal when their parameters and bodies
  are alike and their captured environments hold equal bindings.
- `src/klc.rs` — the syntax tree of the compiled variant of the language.
  Its grammar and its lowering to LLVM IR (through `pliron`) are not part of
  this crate, so neither the library nor `app/` holds the compiler.
- `src/double.rs` — doubles held as bit patterns: their comparisons are
  proved here; their arithmetic, reading and printing are done by the
  `rustc_apfloat` crate (floating-point values cannot appear in the
  verified code itself).
- `app/` — the interactive loop and the file runner.
- `tests/` — tests of all of the above.

Evaluation is bounded by a step budget (`Interpreter::with_step_limit`;
`Interpreter::new` allows `u64::MAX` steps) and integer arithmetic wraps.
