[package]
name = "api_server"
version = "0.1.0"
edition = "2021"
publish = false

[dependencies]
axum = { version = "*", features = ["ws"] }
chrono = "*"
dashmap = "*"
futures = "*"
hex = "*"
hmac = "*"
once_cell = "*"
rand = "*"
regex = "*"
serde = { version = "*", features = ["derive"] }
serde_json = "*"
sha2 = "*"
tokio = { version = "*", features = ["full"] }
tokio-stream = { version = "*", features = ["sync"] }
tracing = "*"
utoipa = "*"
uuid = { version = "*", features = ["v4"] }
