# easy_template

A template engine whose core is verified with Verus.

Templates are text with blocks between `{{` and `}}`. A block that starts with the
keyword of a flow (`for`, `switch`, `if`) or a command (`let`, `include`, `break`,
`continue`) is read by that operator's syntax; any other block is kept as a value.
Expressions are compiled in stages: quoted texts are read, operators and brackets are
tagged, brackets become groups and primitives, primitives are applied to what stands
before them, operators are linked into primitives, and what can be computed before any
variable has a value is computed.

Layout:

- `src/utils` — text search that skips escaped tags, block splitting, character helpers,
  and a tree builder.
- `src/value` — values, their text, how text is read as a value, and reading values from
  JSON and YAML documents (parsed by `serde_json` / `serde_yaml`).
- `src/expression` — the expression compiler and evaluator.
- `src/syntax.rs`, `src/template.rs`, `src/ast.rs` — flow-control syntax and the default
  operators.
- `src/compile.rs`, `src/config.rs`, `src/engine.rs` — building the syntax tree of a
  template, and registering templates.
- `app/` — showing errors as text.

Each function states its result in its contract, over the models in the spec functions
beside it; `requires` clauses leave out only the inputs on which the work cannot complete.
