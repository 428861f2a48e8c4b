# c1

A verified implementation of C1, a small C-like teaching language, written
in Verus: a lexer, a parser, the semantic analysis and an interpreter, each
proved to compute what its specification says; and a small calculator over
postfix syntax trees.

## Layout

- `src/` — the verified library.
  - `ast.rs` — the syntax tree and its views.
  - `lexer.rs`, `parser.rs` — the lexical grammar (`lex`) and the grammar
    (`program_of`) as spec functions; `tokenize` and `parse` are proved to
    follow them, and `lex_with_spans` lexes with spans and goes on after
    lexical errors (`lex_items`).
  - `symtab.rs`, `semantics.rs`, `analysis.rs` — the block-structured symbol
    table, the static semantics (`analysis_of`), and `analyze`, proved to
    give exactly its result, resolved tree and first error.
  - `resolution.rs` — the analysis changes a program only by resolving its
    identifiers; after a successful analysis every identifier is resolved;
    a statement that defines nothing in the current scope leaves every name
    resolving as before.
  - `typing.rs`, `typecheck.rs` — the typing discipline of a resolved
    program, and the proof that the analysis accepts only well-typed
    programs.
  - `soundness.rs` — a well-typed program runs without ever meeting a value
    or a variable that does not fit its analysis: it prints its output or
    stops with a genuine run-time error.
  - `runtime.rs`, `dynamics.rs`, `interpreter.rs` — values and the virtual
    machine, the dynamic semantics (`run_program`), and `interpret`, proved
    to give its result for every model of floating point arithmetic that
    the float type implements.
  - `syntree.rs`, `calculator.rs` — the calculator.
- `tests/` — tests of every stage.
- `app/` — `f64` as C1's `float` type, and error types with `Display`.

Floating point arithmetic is outside the verified library: the interpreter
is generic over a type implementing `runtime::FloatOps`, and `app/` (and the
tests) provide it for `f64`.
