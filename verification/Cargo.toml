[package]
name = "config_lint"
version = "0.1.0"
edition = "2021"
publish = false

[dependencies]
convert_case = "0.6"
anyhow = "1"
async-trait = "0.1"
lazy_static = "1"
reqwest = { version = "0.11", default-features = false, features = ["json", "rustls-tls"] }
schemars = "0.8"
serde = { version = "1", features = ["derive"] }
serde_json = "1"
tokio = { version = "1", features = ["rt-multi-thread", "sync", "macros"] }
tracing = "0.1"
