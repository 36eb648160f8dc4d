[package]
name = "sync_engine"
version = "0.1.0"
edition = "2021"
publish = false

[dependencies]
rayon = "*"
flate2 = "*"
aes-gcm = "*"
sha2 = "*"
hex = "*"
rand = "*"
base64 = "*"
serde = { version = "*", features = ["derive"] }
serde_json = "*"
