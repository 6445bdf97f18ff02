[package]
name = "annotations"
version = "0.1.0"
edition = "2021"
publish = false

[dependencies]
axum = "0.6"
octocrab = "0.19"
ron = "0.8"
serde = { version = "1", features = ["derive"] }
serde_json = "1"
tokio = { version = "1", features = ["macros", "rt"] }
tracing-subscriber = "0.3"
