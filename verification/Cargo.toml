[package]
name = "draox_plugins"
version = "0.1.0"
edition = "2021"
publish = false

[dependencies]
chacha20poly1305 = "=0.10.1"
hkdf = "=0.12.4"
sha2 = "=0.10.9"
dashmap = "=6.2.1"
totp-rs = { version = "=5.7.2", features = ["gen_secret", "otpauth"] }
x25519-dalek = { version = "=2.0.1", features = ["static_secrets"] }
rand = "=0.8.8"
serde = { version = "=1.0.229", features = ["derive"] }
serde_json = { version = "=1.0.154", features = ["preserve_order"] }
chrono = { version = "=0.4.45", features = ["serde"] }
uuid = { version = "=1.29.0", features = ["v4"] }
hex = "=0.4.3"
argon2 = "=0.5.3"
jsonwebtoken = { version = "=9.3.1", default-features = false }
cron = "=0.12.1"
tokio = { version = "=1.54.1", features = ["sync", "time", "rt", "macros"] }
axum = "0.8"
reqwest = { version = "0.12", default-features = false, features = ["json"] }
notify = "6"
