[package]
name = "hath"
version = "1.6.4"
edition = "2021"
publish = false

[dependencies]
aws-lc-rs = "=1.19.0"
axum = "=0.8.9"
chrono = "=0.4.45"
clap = { version = "=4.6.7", features = ["derive"] }
const-hex = "=1.19.3"
futures = "=0.3.34"
h3 = "=0.0.8"
h3-quinn = "=0.0.10"
hex = "=0.4.3"
http-range-header = "=0.4.2"
hyper = { version = "=1.12.0", features = ["server", "client", "http1"] }
hyper-util = { version = "=0.1.21", features = ["tokio", "service", "server"] }
log = { version = "=0.4.35", features = ["std"] }
mime = "=0.3.17"
openssl = "0.10"
p12 = "=0.6.3"
parking_lot = "=0.12.5"
prometheus-client = "=0.23.1"
quinn = "=0.11.12"
rand = { version = "=0.8.8", features = ["small_rng"] }
regex = "=1.13.1"
regex-lite = "=0.1.9"
reqwest = { version = "=0.12.28", default-features = false, features = ["rustls-tls", "stream"] }
rustix = { version = "=1.1.6", features = ["fs"] }
rustls = "=0.23.46"
sha1 = "=0.10.7"
tempfile = "=3.27.0"
tokio = { version = "=1.54.1", features = ["full"] }
tokio-rustls = "=0.26.6"
tower = { version = "=0.5.3", features = ["timeout", "util"] }
