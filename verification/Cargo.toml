[package]
name = "oneshare"
version = "0.1.0"
edition = "2021"
publish = false

[dependencies]
base64 = "=0.22.1"
hmac = "=0.12.1"
sha2 = "=0.10.9"
serde = { version = "=1.0.229", features = ["derive"] }
serde_json = "=1.0.154"
percent-encoding = "=2.3.2"
mime_guess = "=2.0.5"
uuid = { version = "=1.29.0", features = ["v4"] }
chrono = "=0.4.45"
toml = "=0.8.23"
url = "=2.5.8"
axum = "=0.8.9"
axum-extra = { version = "=0.10.3", features = ["cookie"] }
tokio = { version = "=1.54.1", features = ["full"] }
tokio-util = { version = "=0.7.20", features = ["io"] }
tower = { version = "=0.5.3", features = ["util", "make"] }
tower-http = { version = "=0.6.11", features = ["cors", "fs", "set-header"] }
tracing = "=0.1.44"
tracing-subscriber = { version = "=0.3.23", features = ["env-filter"] }
reqwest = { version = "=0.12.28", default-features = false, features = ["json", "rustls-tls-webpki-roots-no-provider"] }
ring = "=0.17.14"
rustls = { version = "=0.23.46", default-features = false, features = ["ring", "std"] }
rusqlite = { version = "=0.41.1", features = ["bundled"] }
libfw-core = { version = "=0.4.6", features = ["path-encrypt"] }
libfw-server = { version = "=0.4.6", features = ["path-encrypt"] }
