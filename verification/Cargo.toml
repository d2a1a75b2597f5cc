[package]
name = "webcloner"
version = "0.1.0"
edition = "2021"
publish = false

[dependencies]
url = "2"
sha2 = "0.10"
percent-encoding = "2"
scraper = "0.19"
serde = { version = "1", features = ["derive"] }
serde_json = "1"
anyhow = "1"
clap = { version = "4", features = ["derive"] }
tokio = { version = "1", features = ["rt-multi-thread", "macros", "sync", "time", "net"] }
reqwest = { version = "0.11", default-features = false, features = ["rustls-tls"] }
axum = "0.6"
tower-http = { version = "0.4", features = ["fs"] }
walkdir = "2"
zip = { version = "0.6", default-features = false, features = ["deflate"] }
