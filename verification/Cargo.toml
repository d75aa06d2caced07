[package]
name = "lark_compiler"
version = "0.1.0"
edition = "2021"
publish = false

[dependencies]
anyhow = "1"
derivre = "*"
log = "0.4"
regex-syntax = "0.8"
rustc-hash = "2"
serde = { version = "1", features = ["derive"] }
serde_json = "1"
tokenizers = { version = "*", default-features = false, features = ["unstable_wasm"] }
toktrie = "*"
