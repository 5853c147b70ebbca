[package]
name = "blast"
version = "0.1.0"
edition = "2021"
publish = false

[dependencies]
fake = "2"
uuid = { version = "1", features = ["v4"] }
serde = { version = "1", features = ["derive"] }
serde_json = "1"
reqwest = { version = "0.12", default-features = false, features = ["json"] }
tokio = { version = "1", features = ["rt-multi-thread", "macros", "time", "sync"] }
anyhow = "1"
thiserror = "2"
colored = "2"
clap = { version = "4", features = ["derive"] }
napi = { version = "2", features = ["async"] }
napi-derive = "2"
