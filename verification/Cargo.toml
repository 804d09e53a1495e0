[package]
name = "lis"
version = "0.1.0"
edition = "2021"
publish = false

[dependencies]
libc = "=0.2.191"
serde = { version = "=1.0.229", features = ["derive"] }
serde_json = "=1.0.154"
anyhow = "=1.0.104"
blake3 = "=1.8.7"
hex = "=0.4.3"
base64 = "*"
toml = "*"
