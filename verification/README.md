# io_lang

The front end, checks and tooling of a small programming language, written in
Verus: every function of the library under `src/` has a contract that Verus
proves.

## Layout

- `src/` — the verified library.
  - `lexer`, `token`, `parser`, `ast`: source text to tokens to syntax trees.
  - `semantic`: scopes, the type checker (`check_node` states what checking a
    node gives) and the control-flow check.
  - `optimizer`: constant folding; `compiler`: the pipeline from source to
    checked tree, and control-flow graphs with their dominators.
  - `codegen`: which machine-level instruction each operator becomes, and the
    optimization passes of each level.
  - `module`: registered modules and their dependency graph (no cycles).
  - `package`: manifests, the registry (semver requirements, SHA-256
    checksums) and dependency resolution.
  - `runtime`, `memory`, `debug`, `error`, `diagnostics`, `lsp`, `doc`,
    `pattern`, `macro_system`, `analysis`, `build`, `testing`,
    `source_location`, `style`, `text`: the rest of the tooling.
- `tests/` — tests of the library on concrete values.
- `app/` — the command-line program around the library: argument handling,
  files, the network, LLVM through inkwell, the language server, and the
  floating-point evaluation that the library does not hold.

Calls into outside crates (regex, semver, sha2, colored) and into parts of std
without a specification stand behind small trusted wrappers whose contracts
say what the crates' documentation promises.
