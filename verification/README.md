# tiny_wat_interpreter

A verified interpreter for a small subset of the WebAssembly text format:
functions over `i32` with folded `i32.const`, `local.get`, `i32.add`,
`i32.sub`, `i32.mul`, `i32.rem_s`, `i32.lt_s`, `if` and `call`.

Layout of `src/`:

- `ast.rs`: `Expr`, `Function`, `Module`, their mathematical models, and the
  function and export tables of a module.
- `sexpr.rs`: s-expression nodes, read from text by the `sexp` crate.
- `text.rs`, `number.rs`: trimming, quotes, integer text.
- `parse.rs`: the grammar, as spec functions over nodes, and the parser proved
  to follow it (`Module::parse_wat`, `Module::from_sexp`).
- `eval.rs`: the evaluation semantics, bounded by a fuel on nesting, and the
  evaluator proved to follow it (`Module::invoke`, `Module::invoke_bounded`);
  the semantics does not depend on the fuel once it suffices.
- `syntax_laws.rs`: what a function declaration and an `if` give, item by
  item, and each error of a function declaration.
- `laws.rs`: what the tables keep, what every parsed module satisfies, the
  meaning of each instruction, and termination for acyclic call graphs.

`app/main.rs` is the command-line runner: `<file.wat> <function> [args...]`.
