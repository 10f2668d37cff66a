# orvane

The front end of the Orvane language (`orv`), written in Verus: every function
of the library carries a contract that Verus proves.

## Layout

- `src/lexer/` — the lexer. `model.rs` states the lexer as a function of the
  source bytes, the scanners in `mod.rs`, `string.rs`, `number.rs` are proved
  to compute it, `laws.rs` proves what every run guarantees (spans inside the
  file, on character boundaries, ordered; zero-width `Newline`s; only the
  last token is `Eof`; single-line messages), and `line_endings.rs` proves that writing `\n` as `\r\n` changes
  nothing but positions.
- `src/source.rs`, `src/span.rs`, `src/diagnostic.rs`, `src/diagnostics.rs` —
  files, spans, diagnostics and their compact rendering, and the suppression of
  follow-up diagnostics behind a lexical error.
- `src/dump.rs`, `src/ast_dump.rs` — the stable text dumps of tokens and of the
  syntax tree, each specified line by line.
- `src/ast/` — the syntax tree.
- `src/sema/` — scopes, types and the type checker; `model.rs` states every
  typing rule, `check.rs` is proved to follow it, `laws.rs` holds the
  compatibility laws.
- `src/runtime/` — the parts of running a program that compute on values:
  runtime values with their structural equality (numbers across `Int` and
  `Float` by mathematical value, read off the double's bits), their display,
  map entries, variable environments, the plain builtins (`print`'s line,
  `len`, `range`, `str`, `assert`, `Ok`, `Err`), the decisions around a call
  (arity, builtins, constructors, the depth limit, control flow confined to
  the function), failures, and integer arithmetic, indices and ranges.
  `interp.rs` is the evaluator: `eval_spec` and its companions state what
  every expression, statement, call, `match` and loop does, and the
  interpreter is proved to compute them. Operations on doubles are not
  computed in the library: a run stops with the operation it needs, and the
  caller computes it and runs again with the answers so far (`Session`);
  a run that stops for an operation has used every answer it was given.
  Loops and calls draw on a fuel budget, so every run ends.
- `src/cli.rs` — the command line's decisions: subcommands, the version line,
  exit codes.
- `app/` — the `orv` binary: argument parsing with clap, file and terminal I/O,
  and the `f64` operations an evaluation asks for.
- `tests/` — tests run against the compiled library.
