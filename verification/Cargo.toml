[package]
name = "http_downloader"
version = "0.1.0"
edition = "2021"
publish = false

[dependencies]
anyhow = "1"
async-graphql = { version = "5", default-features = false }
async-stream = "0.3"
async-trait = "0.1"
bson = "2"
bytes = "1"
futures-util = "0.3"
headers = "0.3"
parking_lot = "0.12"
reqwest = { version = "0.11", default-features = false, features = ["stream", "rustls-tls"] }
serde = { version = "1", features = ["derive"] }
thiserror = "1"
tokio = { version = "1", features = ["rt", "macros", "sync", "time", "fs", "io-util"] }
tokio-util = "0.7"
tracing = "0.1"
url = { version = "2", features = ["serde"] }
