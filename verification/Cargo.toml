[package]
name = "cybersub"
version = "0.1.0"
edition = "2021"
publish = false

[dependencies]
png = "0.17"
serde = { version = "1", features = ["derive"] }
serde_yaml = "0.8"
bincode = "1"
flate2 = "1"
