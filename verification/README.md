# gluon

A verified core of the gluon programming language: its types and the operations on them, the
inference of types, the parser, the compiler for the stack machine, and what editors ask of a
program. Each function states what it returns in `requires` and `ensures` clauses, which Verus
proves.

## Layout

- `src/types/` — types, their rows, aliases, flags and how they are printed
- `src/resolve.rs`, `src/substitution.rs`, `src/unify_type.rs`, `src/laws.rs`,
  `src/agreement.rs` — aliases, type variables, unification, and what holds of them as a whole
- `src/typecheck/` — the inference of types and kinds, and overloaded names
- `src/implicits/` — the search for implicit arguments, given which candidates fit
- `src/lexer.rs`, `src/parser.rs` — the grammar
- `src/ast.rs`, `src/recursion_check.rs`, `src/pretty_print.rs`, `src/doc.rs` — syntax trees, the
  check of recursive values, and layout
- `src/compiler.rs` — code for the stack machine
- `src/completion.rs`, `src/scope.rs`, `src/suggest.rs`, `src/query.rs`, `src/typed.rs` — what
  stands at a position, and what could be written there
- `src/serialization.rs`, `src/macros.rs`, `src/pushable.rs`, `src/options.rs`, `src/fixed.rs` —
  shared values, macros, values on the stack, the command line, and collections
- `app/` — the command line program
- `tests/` — tests

Types are modelled by `types::model::Ty`, which says what a type is apart from how it is shared.
Where a computation need not come to an end, its model counts steps; the answer does not depend on
how many are allowed beyond those that are enough.
