[package]
name = "gvm"
version = "0.1.0"
edition = "2021"
publish = false
rust-version = "1.95"

[dependencies]
tokio = { version = "=1.54.1", features = ["fs", "rt"] }
wasmtime = { version = "=45.0.3", default-features = false, features = ["cranelift", "runtime", "component-model", "std"] }
wasmtime-wasi = "=45.0.3"
wat = "=1.263.0"
