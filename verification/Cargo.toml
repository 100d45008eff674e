[package]
name = "crabstorm"
version = "0.1.0"
edition = "2021"
publish = false

[dependencies]
flume = "*"
rand = "*"
serde = { version = "*", features = ["derive"] }
serde_json = "*"
ulid = "*"
