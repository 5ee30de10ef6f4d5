//! Argument handling for the WebAssembly toolchains that a compilation
//! cache wraps: the `wasm-opt` optimizer and the Emscripten compiler
//! drivers (`emcc` / `em++`).

pub mod compiler;
pub mod emscripten;
pub mod language;
pub mod path;
pub mod text;
pub mod wasm_opt;
pub mod windows_path;
