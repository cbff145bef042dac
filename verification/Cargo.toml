[package]
name = "easytier_bridge"
version = "0.1.0"
edition = "2021"
publish = false

[dependencies]
dashmap = "6"
flutter_rust_bridge = "2"
once_cell = "1"
serde_json = "1"
tracing = "0.1"
tracing-subscriber = { version = "0.3", features = ["time"] }
uuid = "1"
