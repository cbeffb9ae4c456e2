[package]
name = "rush"
version = "0.1.0"
edition = "2021"
publish = false

[dependencies]
base64 = "0.21"
bincode = "1"
crossterm = { version = "0.27", features = ["event-stream"] }
futures = "0.3"
serde = { version = "1", features = ["derive"] }
shell-words = "1"
tokio = { version = "1", features = ["full"] }
