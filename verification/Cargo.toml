[package]
name = "data"
version = "0.1.0"
edition = "2021"
publish = false

[dependencies]
chrono = "=0.4.45"
serde = { version = "=1.0.229", features = ["derive"] }
serde_json = "=1.0.154"
tokio = { version = "=1.54.1", features = ["rt-multi-thread", "macros", "sync", "time"] }
reqwest = { version = "=0.12.28", default-features = false, features = ["json"] }
thiserror = "=2.0.21"
uuid = { version = "=1.29.0", features = ["v4"] }
log = "=0.4.35"
futures-util = "=0.3.34"
tokio-tungstenite = "=0.24.0"
zip = { version = "=2.6.1", default-features = false, features = ["deflate"] }
csv = "=1.4.0"
arrow = { version = "57", default-features = false }
parquet = { version = "57", default-features = false, features = ["arrow"] }
