# petr

The front half of the petr compiler, written in Verus: source spans, the syntax tree,
the parser's token-level machinery and the type checker, each with contracts that
Verus proves.

## Layout

- `src/span.rs`, `src/ids.rs`, `src/text.rs`: spans and their ordering, symbol
  interning, and the string helpers the printers use.
- `src/ast.rs`, `src/resolved.rs`: the syntax tree and the resolved program that the
  type checker reads.
- `src/types.rs`, `src/context.rs`, `src/unify.rs`: the table of types, the recorded
  constraints, and how each constraint is applied when the table is solved.
- `src/typed.rs`, `src/shape.rs`: typed expressions, their copies, the rewriting of
  parameter references, and the shape a typed tree keeps of its resolved tree.
- `src/maps.rs`, `src/checker.rs`: the sorted maps and the state of type checking with
  its invariant.
- `src/generate.rs`: constraint generation for expressions, calls, intrinsics and
  functions, and the monomorphization of called functions.
- `src/type_checker.rs`: checking a whole program and the public checker.
- `src/printing.rs`, `src/pretty.rs`, `src/error.rs`: how types, typed expressions,
  errors and the whole checker are printed.
- `src/parse_error.rs`, `src/parser.rs`: tokens, parse errors and their messages, and
  the parser's reading, backtracking, help and sequence machinery.
- `app/`: the diagnostics of parse errors for `miette`, which needs trait impls that
  only ordinary Rust can give.
- `tests/`: scenarios on concrete programs and inputs.
