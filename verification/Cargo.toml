[package]
name = "roomsync"
version = "0.1.0"
edition = "2021"
publish = false

[dependencies]
async-broadcast = "0.7"
async-signal = "0.2"
axum = { version = "0.7", features = ["ws"] }
include_dir = "0.7"
serde = { version = "1", features = ["derive"] }
tempfile = "3"
tokio = { version = "1", features = ["macros", "net", "rt-multi-thread", "sync", "time"] }
tokio-stream = "0.1"
tower-http = { version = "0.5", features = ["fs"] }
tracing = "0.1"
tracing-subscriber = { version = "0.3", features = ["env-filter"] }
