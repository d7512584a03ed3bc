[package]
name = "ulid_service"
version = "0.1.0"
edition = "2021"
publish = false

[dependencies]
ulid = "*"
uuid = "*"
chrono = "*"
serde = { version = "*", features = ["derive"] }
serde_json = "*"
axum = "*"
tokio = { version = "*", features = ["rt-multi-thread", "net", "macros"] }
