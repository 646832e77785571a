# rhai

A small scripting language with its meaning stated and proved in Verus.

- `src/parser`: the grammar as functions from a position in the text to
  what is read there (`grammar`), and the parser proved to follow it.
  Floating-point literals are read by `nom`. A smaller form of the grammar
  reads the statements of the variant language (`genv::script::parser`):
  no function literals, imports or method calls, dotted names for called
  functions (`math.abs(-1)`), and whole numbers read as integers;
  `method_call` reads a method call in a small fixed form.
- `src/context`: what expressions, calls and programs mean (`semantics`),
  the evaluator proved to compute it, and `Engine::run_ast`, which parses
  and runs a program.
- `src/types`, `src/names`: scopes of variables, functions, objects,
  modules and libraries, over tables in which a later binding shadows an
  earlier one.
- `src/package`, `src/object`: the `math` library and the `TA` object.
- `src/genv`: a calculator over `i32` tokens, with laws tying its parser to
  the printed form of what it reads, and a variant of the language with
  built-in libraries.
- `app/`: the `rhai-run` program, and the engine's file and console side:
  reading script files, printing values with doubles computed in floating
  point.
