[package]
name = "nexterm"
version = "0.1.0"
edition = "2021"
publish = false

[dependencies]
aes-gcm = "=0.10.3"
argon2 = "=0.5.3"
base64 = "=0.22.1"
chrono = { version = "=0.4.45", features = ["serde"] }
uuid = { version = "=1.29.0", features = ["v4", "serde"] }
rand = "=0.8.8"
serde = { version = "=1.0.229", features = ["derive"] }
serde_json = "=1.0.154"
ssh-key = { version = "=0.6.7", features = ["std", "encryption", "ed25519", "rsa", "ecdsa", "p256", "p384", "p521"] }
shellexpand = "=3.1.2"
dirs = "=5.0.1"
zeroize = "=1.9.1"
