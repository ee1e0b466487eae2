[package]
name = "wasm_core"
version = "0.1.0"
edition = "2021"
publish = false

[dependencies]
slotmap = "=1.1.1"
jni = "=0.22.4"
once_cell = "=1.21.4"
anyhow = "=1.0.104"
prost = "=0.14.4"
wasmtime = { version = "=47.0.4", default-features = false, features = ["runtime", "cranelift", "component-model", "threads", "std"] }
wasmtime-wasi = "=47.0.4"
zip = { version = "=9.2.2", default-features = false, features = ["deflate"] }
