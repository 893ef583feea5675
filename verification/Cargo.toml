[package]
name = "hexichor"
version = "0.1.0"
edition = "2021"
publish = false

[dependencies]
uuid = { version = "1", features = ["v4"] }
rand = "0.8"
rust-argon2 = "2"
reqwest = { version = "0.12", default-features = false }
serde = { version = "1", features = ["derive"] }
serde_yaml = "0.9"
tokio = { version = "1", features = ["rt-multi-thread", "macros", "sync", "signal", "time"] }
async-channel = "2"
warp = "0.3"
clap = "4"
tracing = "0.1"
tracing-subscriber = "0.3"
