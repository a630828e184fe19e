[package]
name = "cloud_torrent"
version = "0.1.0"
edition = "2021"
publish = false

[dependencies]
anyhow = "=1.0.104"
axum = { version = "=0.8.9", default-features = false, features = ["http1", "json", "query", "tokio", "ws"] }
axum-server = { version = "*", default-features = false, features = ["tls-rustls"] }
base64 = "=0.22.1"
chrono = { version = "=0.4.45", default-features = false, features = ["std"] }
futures = { version = "=0.3.34", default-features = false, features = ["std"] }
hex = "=0.4.3"
librqbit = { version = "=9.1.0", default-features = false, features = ["rust-tls"] }
md5 = "=0.8.1"
mime_guess = "=2.0.5"
quick-xml = "=0.37.5"
redb = "=3.1.3"
regex = "=1.13.1"
reqwest = { version = "=0.13.5", default-features = false, features = ["json"] }
scraper = { version = "=0.25.0", default-features = false, features = ["errors"] }
serde = { version = "=1.0.229", features = ["derive"] }
serde_json = "=1.0.154"
serde_yaml = "=0.9.34"
sysinfo = { version = "*", default-features = false, features = ["system", "disk"] }
thiserror = "2"
tokio = { version = "=1.54.1", features = ["rt-multi-thread", "macros", "sync", "time", "fs", "process", "net"] }
tokio-util = { version = "=0.7.20", features = ["io"] }
tower = { version = "=0.5.3", features = ["util"] }
tower-http = { version = "=0.6.11", features = ["fs", "cors"] }
tracing = "=0.1.44"
url = "=2.5.8"
urlencoding = "=2.1.3"
