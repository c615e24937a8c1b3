[package]
name = "cyberapi"
version = "0.1.0"
edition = "2021"
publish = false

[dependencies]
base64 = "0.21"
brotli-decompressor = "2"
chrono = "0.4"
cookie_store = "0.20"
hyper = { version = "0.14", features = ["full"] }
hyper-rustls = "0.24"
hyper-timeout = "0.4"
libflate = "1"
once_cell = "1"
serde = { version = "1", features = ["derive"] }
serde_json = "1"
tokio = { version = "1", features = ["full"] }
tracing = "0.1"
tracing-subscriber = "0.3"
url = "2"

[dev-dependencies]
brotli = "3"
