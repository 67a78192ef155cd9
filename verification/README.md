# runec

A compiler and linter for RuneScript, written as a verified library.

- `src/` is the library, verified by Verus: the lexer (`lexer.rs`, token
  stream stated exactly by `lex_from`), the parser (`parser.rs`), the symbol
  tables and loaders of the pack and config files (`symbol.rs`,
  `symloader.rs`), code generation (`compiler.rs`, `bytecode.rs`), the
  pointer checker (`pointer.rs`, `pointer_checker.rs`, `command_table.rs`),
  the lints (`lints.rs`), diagnostics, and the compile pipeline
  (`pipeline.rs`).
- `app/` is the command-line program around it: argument handling, reading
  the source tree and pack files, and printing diagnostics.
- `tests/` runs the library on concrete inputs.

The binary `script.dat`/`script.idx` encoder and the type-check phase are
not part of this crate.
