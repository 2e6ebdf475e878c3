[package]
name = "eleutheria_telos"
version = "0.1.0"
edition = "2021"
publish = false

[dependencies]
serde = { version = "=1.0.229", features = ["derive"] }
serde_json = "=1.0.154"
serde_yaml = "=0.9.34"
base64 = "=0.22.1"
png = "=0.17.16"
uuid = { version = "=1.29.0", features = ["v4"] }
axum = { version = "=0.7.9", features = ["multipart"] }
tokio = { version = "=1.54.1", features = ["full"] }
tokio-stream = "=0.1.19"
tower-http = { version = "=0.5.2", features = ["cors"] }
sqlx = { version = "=0.8.6", default-features = false, features = ["sqlite", "runtime-tokio", "migrate", "macros"] }
reqwest = { version = "=0.12.28", default-features = false, features = ["json"] }
arboard = { version = "=3.7.0", default-features = false, features = ["image-data"] }
image = { version = "=0.25.10", default-features = false, features = ["png", "jpeg", "gif", "bmp", "webp"] }
log = "=0.4.35"
tracing = "=0.1.44"
