[package]
name = "wess"
version = "0.1.0"
edition = "2021"
rust-version = "1.82"
publish = false

[dependencies]
wasmer = "=6.1.0"
uuid = { version = "=1.27.0", features = ["v4"] }
serde = { version = "=1.0.229", features = ["derive"] }
serde_json = "=1.0.151"
toml = "=0.9.8"
tokio = { version = "=1.53.2", features = ["rt-multi-thread", "macros", "sync", "time"] }
