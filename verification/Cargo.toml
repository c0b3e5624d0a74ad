[package]
name = "nyx"
version = "0.1.0"
edition = "2021"
publish = false

[dependencies]
base64 = "=0.22.1"
md-5 = "0.10"
emojis = "=0.9.1"
url = "=2.5.8"
semver = "=1.0.28"
serde = { version = "=1.0.229", features = ["derive"] }
serde_json = "=1.0.154"
serde_yaml = "=0.9.34"
chrono = "=0.4.45"
tokio = { version = "=1.54.1", features = ["rt-multi-thread", "time", "fs", "process", "sync", "net"] }
reqwest = { version = "=0.12.28", default-features = false, features = ["json", "stream", "rustls-tls"] }
futures-util = "=0.3.34"
libc = "=0.2.191"
log = "=0.4.35"
env_logger = "=0.11.11"
anyhow = "=1.0.104"
once_cell = "=1.21.4"
parking_lot = "=0.12.5"
auto-launch = "=0.6.0"
caps = "=0.5.6"
self_update = { version = "=1.3.3", default-features = false, features = ["ureq", "rustls", "github"] }
