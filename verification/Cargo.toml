[package]
name = "ctfsink"
version = "0.1.0"
edition = "2021"
publish = false

[dependencies]
base64 = "=0.22.1"
chrono = "=0.4.45"
cookie = { version = "=0.18.2", features = ["percent-encode"] }
serde_yaml = "=0.9.34"
axum = "0.8"
clap = { version = "4", features = ["derive"] }
figment = { version = "0.10", features = ["env"] }
minijinja = "2"
serde = { version = "1", features = ["derive"] }
serde_json = "1"
tokio = { version = "1", features = ["macros", "rt-multi-thread", "net", "fs", "io-util", "signal"] }
tower-http = { version = "0.6", features = ["trace"] }
tracing = "0.1"
tracing-subscriber = "0.3"
