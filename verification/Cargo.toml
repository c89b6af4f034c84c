[package]
name = "sim_platform"
version = "0.1.0"
edition = "2021"
publish = false

[dependencies]
serde = { version = "=1.0.229", features = ["derive"] }
serde_json = "=1.0.154"
toml = "=1.1.8"
sha2 = "=0.11.1"
wasmparser = "=0.263.0"
regex = "1"
globset = "0.4"
