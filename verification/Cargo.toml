[package]
name = "voice_relay"
version = "0.1.0"
edition = "2021"
publish = false

[dependencies]
byteorder = "1"
serde_json = "1"
serde = { version = "1", features = ["derive"] }
jsonwebtoken = "9"
chrono = "0.4"
thiserror = "1"
tracing = "0.1"
tokio = { version = "1", features = ["net", "rt-multi-thread", "time", "sync", "macros"] }
