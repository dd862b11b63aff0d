[package]
name = "ferrox_auth"
version = "0.1.0"
edition = "2021"
publish = false

[dependencies]
base64 = "0.22"
hmac = "0.12"
sha2 = "0.10"
argon2 = "0.5"
rand = "0.8"
