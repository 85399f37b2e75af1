[package]
name = "totpaste"
version = "0.1.0"
edition = "2021"
publish = false

[dependencies]
base64 = "0.22"
chacha20poly1305 = "0.10"
google_authenticator_converter = "*"
keyring = "3"
serde = { version = "1", features = ["derive"] }
serde_json = "1"
totp-rs = "5"
uuid = { version = "1", features = ["v4"] }
