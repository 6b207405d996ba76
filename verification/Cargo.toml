[package]
name = "block_header_sync"
version = "0.1.0"
edition = "2021"
publish = false

[dependencies]
elrond-wasm = "0.15"
elrond-wasm-derive = "0.15"

[dev-dependencies]
sha2 = "=0.10.9"
