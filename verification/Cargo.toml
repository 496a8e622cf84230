[package]
name = "porta"
version = "0.1.0"
edition = "2021"
publish = false

[dependencies]
libc = "=0.2.191"
regex = "=1.13.1"
serde = { version = "=1.0.229", features = ["derive"] }
serde_json = "=1.0.154"
sha2 = "=0.10.9"
toml = "=1.1.8"
reqwest = { version = "=0.12.28", default-features = false, features = ["blocking", "rustls-tls"] }
jsonschema = { version = "=0.60.2", default-features = false }
wasmtime = "=45.0.3"
wasmtime-wasi = "=45.0.3"
