[package]
name = "libsyc"
version = "0.1.0"
edition = "2021"
publish = false

[dependencies]
bincode = "=1.3.3"
clap = { version = "=3.2.25", features = ["derive"] }
serde = { version = "=1.0.229", features = ["derive"] }
wabt = "=0.10.0"
wasm-encoder = "=0.8.0"
wasmparser = "=0.80.2"
wasmtime = "14"
wasmtime-wasi = "14"
