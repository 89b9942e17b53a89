[package]
name = "osakana"
version = "0.1.0"
edition = "2021"
publish = false

[dependencies]
rand = "0.9"
tokio = { version = "1", features = ["sync", "rt-multi-thread", "macros", "time", "signal", "net", "fs"] }
uuid = { version = "1", features = ["v4"] }
axum = { version = "0.8", features = ["ws"] }
serde = { version = "1", features = ["derive"] }
serde_json = "1"
tower-http = { version = "0.6", features = ["cors", "trace"] }
tracing = "0.1"
tracing-subscriber = { version = "0.3", features = ["env-filter"] }
async-stream = "0.3"
futures-util = "0.3"
dotenvy = "0.15"
thiserror = "2"
