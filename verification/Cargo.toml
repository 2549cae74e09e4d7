[package]
name = "logpipe"
version = "0.1.4"
edition = "2021"
publish = false

[dependencies]
async-trait = "0.1"
chrono = "0.4"
chrono-tz = "0.10"
flate2 = "1"
glob = "0.3"
hostname = "0.4"
memchr = "2"
regex = "1"
reqwest = { version = "0.12", default-features = false, features = ["rustls-tls"] }
serde = { version = "1", features = ["derive"] }
serde_json = "1"
serde_yaml_ng = "0.10"
tokio = { version = "1", features = ["full"] }
tracing = "0.1"
tracing-subscriber = { version = "0.3", features = ["env-filter"] }
