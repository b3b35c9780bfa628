[package]
name = "localize"
version = "0.1.0"
edition = "2021"
publish = false

[dependencies]
language-tags = { version = "0.3", features = ["serde"] }
napi = "2"
napi-derive = "2"
regex = "1"
serde = { version = "1", features = ["derive"] }
serde_json = "1"
thiserror = "1"
