[package]
name = "herdr"
version = "0.1.0"
edition = "2021"
publish = false

[dependencies]
base64 = "=0.22.1"
getrandom = "=0.3.4"
interprocess = "=2.4.7"
libc = "=0.2.191"
portable-pty = "=0.9.0"
qrcode = { version = "=0.14.1", default-features = false }
serde = { version = "=1.0.229", features = ["derive"] }
serde_json = "=1.0.154"
sha2 = "=0.10.9"
tokio = { version = "=1.54.1", features = ["sync", "rt", "rt-multi-thread", "time", "process", "io-util"] }
toml = "=1.1.8"
tungstenite = "=0.30.0"
unicode-normalization = "=0.1.26"
