[package]
name = "mayastor"
version = "0.1.0"
edition = "2021"
publish = false

[dependencies]
bincode = "=1.3.3"
crc = "=1.8.1"
futures = "=0.3.34"
log = "0.4"
serde = { version = "=1.0.229", features = ["derive"] }
uuid = { version = "=0.7.4", features = ["v4"] }
