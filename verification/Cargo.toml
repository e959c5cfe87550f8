[package]
name = "synth"
version = "0.1.0"
edition = "2021"
publish = false

[dependencies]
anyhow = "=1.0.104"
axum = "=0.7.9"
base64 = "=0.22.1"
chrono = "=0.4.45"
dotenvy = "=0.15.7"
fastrand = "=2.5.0"
futures = "=0.3.34"
git2 = { version = "=0.20.4", default-features = false }
governor = { version = "=0.6.3", default-features = false, features = ["std"] }
ignore = "=0.4.34"
pdf-extract = "=0.9.0"
reqwest = { version = "=0.12.28", default-features = false, features = ["json", "multipart", "cookies", "rustls-tls"] }
serde = { version = "=1.0.229", features = ["derive"] }
serde_json = "=1.0.154"
tantivy = { version = "=0.22.1", default-features = false, features = ["mmap"] }
tokio = { version = "=1.54.1", features = ["full"] }
tracing = "=0.1.44"
tracing-subscriber = { version = "=0.3.23", features = ["env-filter"] }
url = "=2.5.8"
urlencoding = "=2.1.3"
uuid = { version = "=1.29.0", features = ["v4"] }
scraper = "=0.20.0"
image = { version = "=0.25.10", default-features = false, features = ["png", "jpeg", "gif", "webp", "bmp"] }

[dev-dependencies]
tempfile = "=3.27.0"
