[package]
name = "iron_mask_proxy"
version = "0.1.0"
edition = "2021"
publish = false

[dependencies]
axum = "*"
bytes = "*"
futures-util = "*"
reqwest = { version = "*", default-features = false, features = ["stream"] }
serde = { version = "*", features = ["derive"] }
serde_json = "*"
serde_yaml = "*"
tokio = { version = "*", features = ["rt-multi-thread", "macros", "signal", "sync", "net", "time"] }
tokio-stream = "*"
tower-http = { version = "*", features = ["trace"] }
tracing = "*"
tracing-subscriber = "*"
