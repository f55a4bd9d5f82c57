[package]
name = "majiix_backend"
version = "0.1.0"
edition = "2021"
publish = false

[dependencies]
anyhow = "1"
bytes = "1"
clap = { version = "4", features = ["derive"] }
dotenv = "0.15"
h3 = "=0.0.8"
h3-quinn = { version = "=0.0.10", features = ["datagram"] }
h3-webtransport = "=0.1.2"
hyper = "1"
quinn = "=0.11.12"
rustls = "0.23"
tokio = { version = "1", features = ["full"] }
tracing = "0.1"
tracing-subscriber = { version = "0.3", features = ["env-filter"] }
urlencoding = "=2.1.3"
