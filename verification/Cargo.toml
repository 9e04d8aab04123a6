[package]
name = "voice_capture"
version = "0.1.0"
edition = "2021"
publish = false

[dependencies]
dashmap = "*"
reqwest = { version = "*", default-features = false, features = ["rustls-tls"] }
tokio = { version = "*", features = ["rt-multi-thread", "macros"] }
serde = { version = "*", features = ["derive"] }
envy = "*"
dotenvy = "*"
tracing = "*"
tracing-subscriber = "*"

[dev-dependencies]
hound = "*"
