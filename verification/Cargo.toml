[package]
name = "stormdl"
version = "0.1.0"
edition = "2021"
publish = false

[dependencies]
blake3 = "=1.8.7"
bytes = "=1.12.1"
dirs = "=7.0.0"
flume = "=0.12.0"
futures-util = "=0.3.34"
governor = "=0.10.4"
h3 = "=0.0.8"
h3-quinn = "=0.0.10"
http = "=1.5.0"
parking_lot = "=0.12.5"
quinn = { version = "=0.11.12", default-features = false, features = ["rustls-ring", "runtime-tokio", "log"] }
reqwest = { version = "=0.12.28", default-features = false, features = ["rustls-tls", "stream", "http2"] }
rustls = { version = "=0.23.45", default-features = false, features = ["ring", "std", "logging", "tls12"] }
tokio = { version = "=1.53.2", features = ["rt-multi-thread", "macros", "time", "fs", "sync", "io-util"] }
url = "=2.5.8"
webpki-roots = "=1.0.9"
