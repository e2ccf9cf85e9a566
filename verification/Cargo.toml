[package]
name = "dis"
version = "0.1.0"
edition = "2021"
publish = false

[dependencies]
aes-gcm = "=0.10.3"
argon2 = "=0.5.3"
base64 = "=0.13.1"
chrono = "=0.4.45"
ed25519-dalek = "2"
hmac = "=0.12.1"
rand = "=0.8.8"
serde = { version = "=1.0.229", features = ["derive"] }
serde_json = "=1.0.154"
sha2 = "=0.10.9"
uuid = { version = "=1.29.1", features = ["v4"] }
x25519-dalek = { version = "=2.0.1", features = ["static_secrets"] }
