[package]
name = "zdefuser"
version = "0.1.0"
edition = "2021"
publish = false

[dependencies]
serde = { version = "1", features = ["derive"] }
serde_json = "1"
zip = { version = "2", default-features = false, features = ["deflate", "aes-crypto"] }
tar = "0.4"
flate2 = "1"
rar = "*"
walkdir = "2"
tempfile = "3"
tokio = { version = "1", features = ["sync", "rt", "rt-multi-thread", "macros"] }
sevenz-rust = "0.6"
wasmtime = "29"
wasmtime-wasi = "29"
