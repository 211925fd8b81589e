[package]
name = "mcp_guards"
version = "0.1.0"
edition = "2021"
publish = false

[dependencies]
regex = "=1.13.1"
serde = { version = "=1.0.229", features = ["derive"] }
serde_json = "=1.0.154"
rmcp = { version = "=3.7.0", default-features = false }
tracing = "=0.1.44"
thiserror = "=2.0.21"
anyhow = "=1.0.104"
shellexpand = "=3.1.2"
stacker = "=0.1.25"
wasmtime = { version = "=46.0.3", default-features = false, features = ["component-model", "cranelift", "runtime", "std"] }
wasmtime-wasi = "=46.0.3"
