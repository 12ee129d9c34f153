[package]
name = "udp-transports"
version = "0.1.0"
edition = "2021"
publish = false

[dependencies]
rand = "0.9"
hex = "0.4"
serde_json = "1"
bytes = "1"
http = "1"
parking_lot = "0.12"
tracing = "0.1"
tokio = { version = "1", features = ["net", "rt-multi-thread", "sync", "time", "macros", "fs", "io-util"] }
rustls = { version = "0.23", default-features = false, features = ["ring", "std", "tls12"] }
quinn = { version = "0.11", default-features = false, features = ["runtime-tokio", "rustls-ring"] }
h3 = "0.0.8"
h3-quinn = "0.0.10"
