[package]
name = "bz"
version = "0.1.0"
edition = "2021"
publish = false

[dependencies]
bincode = "1.3"
chrono = "0.4"
color-eyre = "0.6"
crossterm = { version = "0.28", features = ["event-stream"] }
dirs = "5"
futures = "0.3"
libc = "0.2"
matrix-sdk = { version = "0.9", default-features = false, features = ["rustls-tls"] }
portable-pty = "0.9"
ratatui = "0.28"
serde = { version = "1", features = ["derive"] }
serde_json = "1"
tempfile = "3"
tokio = { version = "1", features = ["full"] }
toml = "0.8"
uuid = { version = "1", features = ["v4"] }
vt100 = "0.16"
