[package]
name = "turtle_core"
version = "0.1.0"
edition = "2021"
publish = false

[dependencies]
seahash = "4"
serde_json = "1"
uuid = { version = "1", features = ["v4"] }
serde = { version = "1", features = ["derive"] }
axum = { version = "0.6", features = ["ws"] }
tokio = { version = "1", features = ["full"] }
tempfile = "3"
