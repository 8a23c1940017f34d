[package]
name = "factory_sim"
version = "0.1.0"
edition = "2021"
publish = false

[dependencies]
uuid = { version = "=1.29.0", features = ["serde"] }
serde = { version = "=1.0.229", features = ["derive"] }
serde_json = "=1.0.154"
tokio = { version = "=1.54.1", features = ["rt-multi-thread", "macros", "time", "sync", "signal", "fs", "io-util", "process", "net"] }
tracing = "=0.1.44"
tracing-subscriber = { version = "=0.3.23", features = ["env-filter"] }
chrono = { version = "=0.4.45", default-features = false, features = ["clock", "std"] }
thiserror = "=1.0.69"
async-trait = "=0.1.92"
rhai = { version = "=1.27.0", features = ["sync"] }
axum = { version = "0.7", features = ["ws"] }
tower-http = { version = "0.5", features = ["cors"] }
