[package]
name = "indk"
version = "0.1.0"
edition = "2021"
publish = false

[dependencies]
axum = { version = "*", features = ["ws"] }
dashmap = "*"
eyre = "*"
futures = "*"
parking_lot = "*"
serde = { version = "*", features = ["derive"] }
serde_json = "*"
tokio = { version = "*", features = ["fs", "macros", "net", "rt-multi-thread", "sync", "time"] }
uuid = { version = "*", features = ["serde"] }
