[package]
name = "backend"
version = "0.1.0"
edition = "2021"
publish = false

[dependencies]
sha2 = "=0.10.9"
totp-rs = { version = "=5.7.2", features = ["otpauth"] }
pasetors = "=0.7.8"
argon2 = "=0.5.3"
rand = "=0.8.8"
webauthn-rs = "=0.5.5"
serde = { version = "=1.0.229", features = ["derive"] }
serde_json = "=1.0.154"
toml = "=0.8.23"
tokio = { version = "=1.54.1", features = ["sync", "rt", "rt-multi-thread", "macros", "time", "net"] }
reqwest = { version = "0.12", default-features = false, features = ["json", "multipart"] }
clap = { version = "4", features = ["derive"] }
tokio-tungstenite = "0.26"
futures-util = "0.3"
urlencoding = "2"
