# wasm_neovm

A verified library that turns WebAssembly modules into NeoVM bytecode for Neo N3
smart contracts. Verus checks every function in `src/`. Most state what they
return or change in `ensures` clauses; most private helpers that decode module
sections are checked only for safety (no overflow, no out-of-bounds access), and
the decoded module is not tied to the input bytes by any contract. The WebAssembly binary
format is read through `wasmparser`, behind trusted wrappers in `src/wasm.rs`
whose contracts Verus takes without proof.

## Layout

- `src/header.rs`: the module header check (magic number and version).
- `src/wasm.rs`: the trusted items over `wasmparser`.
- `src/decode.rs`, `src/module.rs`: a decoded module as plain values.
- `src/elements.rs`: the checks on element segments and the functions they reference.
- `src/opcodes.rs`, `src/syscalls.rs`: the NeoVM opcode and interop service tables.
- `src/le.rs`, `src/text.rs`: little-endian encodings, byte-string and ASCII helpers.
- `src/emit.rs`: integer and data pushes, jumps, calls and slot instructions.
- `src/ops.rs`, `src/locals.rs`, `src/control.rs`: numeric operators, locals and
  structured control flow.
- `src/imports.rs`: lowering of calls into the `opcode`, `syscall` and `neo` import modules.
- `src/function.rs`: translation of one function body, and the call-site registry.
- `src/reachability.rs`: the call graph and the set of functions reachable from the exports.
- `src/features.rs`: the contract features (storage, payable) recorded along the way.
- `src/json.rs`: the manifest overlays that mark methods as safe.
- `src/tokens.rs`: method tokens inferred from emitted scripts.
- `src/translate.rs`: whole-module translation and its manifest methods.
- `tests/`: tests run against the compiled library.
- `app/`: reading manifest overlays with `serde_json` and error reporting with `anyhow`.

## What is translated, and what is refused

Translated: integer (`i32`, `i64`) constants, arithmetic, comparisons and bitwise
operators; locals; `block`, `loop`, `if`, `br`, `br_if`, `br_table`, `return`; direct
calls; calls into the `opcode` and `syscall` import modules; the `neo` aliases
`runtime_check_witness_hash`, `storage_get` (System.Storage.Get) and `call_contract`
(System.Contract.Call); exported imports, which get a stub; element segments of
function references (checked: not declared, offset not negative, funcref only, indices
within `i32`, table present).

Refused with an error naming what is missing (`RuntimeHelperRequired`), since this
library has no runtime helpers to emit: linear memory (loads, stores, `memory.*`,
`data.drop`) and data segments, `global.get`/`global.set`, tables and
`call_indirect`, `select`, `clz`/`ctz`/`popcnt`, the integer conversions, reference
operators, the `neo` storage helpers (`raw_storage_get_i64` and the like, once
their signature has been checked: a wrong one gives `NeoImportSignature`),
log/notify helpers, and a start function other than the one being translated.
Floating-point and SIMD operators are refused as unsupported, as are `neo` names
that are not among the aliases above (`UnknownNeoImport`).
