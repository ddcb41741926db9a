[package]
name = "whois_ingest"
version = "0.1.0"
edition = "2021"
publish = false

[dependencies]
chrono = "0.4"
clap = { version = "4", features = ["derive"] }
csv = "1"
log = "0.4"
mongodb = { version = "2", features = ["tokio-sync"] }
reqwest = { version = "0.11", default-features = false, features = ["rustls-tls"] }
serde = { version = "1", features = ["derive"] }
simple_logger = "4"
thiserror = "1"
tokio = { version = "1", features = ["rt-multi-thread"] }
zip = { version = "0.6", default-features = false, features = ["deflate"] }
