[package]
name = "wasm_neovm"
version = "0.1.0"
edition = "2021"
publish = false

[dependencies]
wasmparser = "*"
anyhow = "*"
serde_json = "*"

[dev-dependencies]
wat = "*"
