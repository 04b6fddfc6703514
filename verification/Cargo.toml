[package]
name = "echoscribe"
version = "0.1.0"
edition = "2021"
publish = false

[dependencies]
anyhow = "1"
flac-codec = "*"
serde = { version = "1", features = ["derive"] }
serde_json = "1"
serenity = { version = "0.12", default-features = false, features = ["client", "gateway", "model", "rustls_backend", "cache"] }
tokio = { version = "1", features = ["macros", "rt-multi-thread", "signal"] }
toml = "*"
