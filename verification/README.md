# rcpp

The core of `rcpp`, a transpiler and build driver for RC++ (`.rcx` files),
written in Verus with its behaviour stated in contracts and proved.

- `src/text.rs` — character-sequence operations (trimming, searching,
  replacing, splitting into lines, decimal and hexadecimal text).
- `src/parser.rs` — splits a source file into `use` statements, `extern mod`
  declarations, the `interface { .. }` block and the remaining lines, with
  attributes attached.
- `src/rewrite.rs` — the per-line RC++ to C++ translation: literal masking,
  pattern rewrites (through the `regex` crate), signature types and
  parameters, `panic!` rewriting.
- `src/codegen.rs` — module names and hashes, the module registry, the source
  map, attribute translation and the text of the generated `.hpp`, `.cpp`,
  `.csv` and `.lst` files.
- `src/strmap.rs` — a map keyed by strings.
- `src/cli.rs` — command-line argument rules, the output directory and
  progress percentages.
- `src/rpc.rs` — JSON-RPC mode: which lines start a build, when progress is
  reported, and the text of notifications and answers.
- `app/` — the command-line program: argument parsing, JSON-RPC mode,
  directory walking, file I/O and running the C++ compiler.
