# rlox

A tree-walking interpreter for the Lox language,
written in Verus: the scanner, the parser, the environment of variables and the
interpreter carry contracts over mathematical models and are proved.

Layout of `src/`:

- `token`, `object`, `expr`, `stmt`: the data, each with its model.
- `error`: diagnostics and their printed form.
- `scanner`: the lexical grammar as spec functions, and the scanner proved
  against it.
- `grammar`, `parser`: the recursive-descent grammar as spec functions, and the
  parser proved against it.
- `enviorment`: nested scopes of variables, with the laws of definition,
  lookup, assignment and shadowing.
- `machine`, `interpreter`: the interpreter as a small-step machine. Number
  arithmetic, printing and the clock are requests that the host answers, so the
  library holds no floating point.
- `trace`: runs of the machine, and the laws that relate the run of a block, an `if`,
  a grouping or a list of statements to the runs of its parts.

`app/` is the command-line program: it reads a script or a prompt, answers the
interpreter's requests with binary64 arithmetic, and prints.
