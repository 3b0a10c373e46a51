[package]
name = "custom_tcp"
version = "0.1.0"
edition = "2021"
publish = false

[dependencies]
anyhow = "=1.0.104"
etherparse = "=0.21.0"
rustix = { version = "=1.1.5", features = ["net", "time"] }
