[package]
name = "foundry-compilers"
version = "0.11.0"
edition = "2021"
publish = false

[dependencies]
alloy-json-abi = { version = "0.8", features = ["serde_json"] }
dirs = "5"
fs4 = "0.8"
reqwest = { version = "0.12", default-features = false, features = ["rustls-tls"] }
semver = { version = "1", features = ["serde"] }
serde = { version = "1", features = ["derive"] }
serde_json = "1"
tokio = { version = "1", features = ["rt-multi-thread"] }
walkdir = "2"
