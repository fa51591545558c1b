[package]
name = "guestbook"
version = "0.1.0"
edition = "2021"
publish = false

[dependencies]
chrono = "=0.4.45"
axum = "=0.8.9"
tokio = { version = "=1.53.2", features = ["full"] }
tower-http = { version = "=0.7.1", features = ["cors"] }
serde = { version = "=1.0.229", features = ["derive"] }
serde_json = "*"
