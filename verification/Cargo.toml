[package]
name = "tablebase"
version = "0.1.0"
edition = "2021"
publish = false

[dependencies]
duckdb = { version = "=1.20000.1", default-features = false }
libduckdb-sys = { version = "=1.20000.1", default-features = false, features = ["capi-v1"] }
sqlparser = "=0.63.0"
sha2 = "=0.10.9"
dirs = "=7.0.0"
serde = { version = "=1.0.229", features = ["derive"] }
serde_json = "=1.0.154"
