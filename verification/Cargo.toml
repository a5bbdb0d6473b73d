[package]
name = "tus_sessions"
version = "0.1.0"
edition = "2021"
publish = false

[dependencies]
actix-web = { version = "4", default-features = false }
base64 = "0.21"
chrono = { version = "0.4", default-features = false, features = ["clock", "serde"] }
log = "0.4"
serde = { version = "1", features = ["derive"] }
serde_json = "1"
sha2 = "0.10"
tokio = { version = "1", features = ["rt"] }
uuid = { version = "1", features = ["v4"] }
