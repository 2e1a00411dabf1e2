//! Translation of WebAssembly modules into NeoVM bytecode.

pub mod control;
pub mod decode;
pub mod elements;
pub mod emit;
pub mod errors;
pub mod features;
pub mod function;
pub mod header;
pub mod json;
pub mod imports;
pub mod le;
pub mod locals;
pub mod module;
pub mod opcodes;
pub mod outcomes;
pub mod reachability;
pub mod ops;
pub mod syscalls;
pub mod text;
pub mod tokens;
pub mod translate;
pub mod wasm;
