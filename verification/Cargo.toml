[package]
name = "math_quiz"
version = "0.1.0"
edition = "2021"
publish = false

[dependencies]
rand = "0.8"
chrono = "0.4"
chrono-tz = "0.10"
now = "0.1"
anyhow = "1"
log = "0.4"
env_logger = "0.11"
serde = { version = "1", features = ["derive"] }
clap = { version = "4", features = ["derive"] }
tokio = { version = "1", features = ["rt-multi-thread", "macros", "signal", "time"] }
tokio-rusqlite = "0.5"
poem = { version = "3", features = ["rustls"] }
async-stream = "0.3"
