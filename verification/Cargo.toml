[package]
name = "ice_agent"
version = "0.1.0"
edition = "2021"
publish = false

[dependencies]
hmac = "0.12"
sha1 = "0.10"
rand = "0.8"
thiserror = "1"
serde = { version = "1", features = ["derive"] }
