[package]
name = "devx"
version = "0.1.0"
edition = "2021"
publish = false

[dependencies]
anyhow = "1"
bytes = "1"
clap = { version = "4", features = ["derive"] }
crossterm = "0.28"
dotenvy = "0.15"
http-body-util = "0.1"
hyper = { version = "1", features = ["http1", "server", "client"] }
hyper-util = { version = "0.1", features = ["tokio"] }
libc = "0.2"
notify = "8"
notify-debouncer-mini = "0.6"
ratatui = "0.29"
rcgen = { version = "0.13", features = ["x509-parser"] }
reqwest = { version = "0.12", default-features = false }
rustls = { version = "0.23", default-features = false, features = ["ring", "std", "logging", "tls12"] }
serde = { version = "1", features = ["derive"] }
serde_json = "1"
time = "0.3"
tokio = { version = "1", features = ["full"] }
tokio-rustls = { version = "0.26", default-features = false, features = ["ring", "logging", "tls12"] }
toml = "0.8"
