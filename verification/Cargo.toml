[package]
name = "tquic_bench"
version = "0.1.0"
edition = "2021"
publish = false

[dependencies]
axum = "0.7"
bytes = "1"
clap = { version = "4", features = ["derive"] }
env_logger = "0.11"
jemallocator = "0.5"
log = "0.4"
mio = { version = "0.8", features = ["net", "os-poll"] }
rand = "0.8"
reqwest = { version = "0.12", default-features = false, features = ["blocking", "json", "rustls-tls"] }
rustc-hash = "1"
serde = { version = "1", features = ["derive"] }
serde_json = "1"
signal-hook = "0.3"
tokio = { version = "1", features = ["full"] }
