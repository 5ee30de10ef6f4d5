# sccache_wasm

Command-line handling for two WebAssembly toolchains that a compilation
cache wraps, verified with Verus.

- `src/wasm_opt.rs` — reading a `wasm-opt` command line into a cacheable
  compilation (or the reason it cannot be cached), the command that runs the
  optimizer, and the laws the reading obeys.
- `src/emscripten.rs` — the `emcc`/`em++` drivers: their own argument table
  (sorted, as its searcher needs), what becomes of each of their arguments,
  and the flags their preprocessing step may drop.
- `src/compiler.rs` — the shared values: verdicts, parsed compilations,
  compile commands.
- `src/language.rs`, `src/path.rs`, `src/windows_path.rs`, `src/text.rs` —
  languages by file extension, path arithmetic under Unix and Windows rules
  (prefixes, roots, verbatim paths), character-level string helpers.
- `app/` — the OS-facing side: `OsString`/`Path` conversion (with the
  platform's path separator), reading the
  input file, `anyhow` errors and the `async` preprocessing trait.
