[package]
name = "educe"
version = "0.1.0"
edition = "2021"
publish = false

[dependencies]
url = "2"
percent-encoding = "2"
base64 = "0.22"
scraper = "*"
serde = { version = "1", features = ["derive"] }
serde_json = "1"
toml = "0.8"
clap = { version = "4", features = ["derive"] }
tokio = { version = "1", features = ["full"] }
tokio-stream = "0.1"
futures = "0.3"
axum = "0.8"
reqwest = { version = "0.12", default-features = false, features = ["rustls-tls", "cookies", "json", "socks"] }
rand = "0.8"
anyhow = "1"
async-trait = "0.1"
tracing = "0.1"
tracing-subscriber = { version = "0.3", features = ["env-filter"] }
hickory-resolver = "*"
rustls = { version = "0.23", default-features = false, features = ["ring", "std"] }
rustls-native-certs = "0.8"
rustls-pemfile = "2"
webpki-roots = "*"
