[package]
name = "randomnumbervalidator"
version = "0.1.0"
edition = "2021"
publish = false

[dependencies]
num-bigint = "*"
base64 = "*"
nistrs = "*"
serde = { version = "*", features = ["derive"] }
serde_json = "*"
chrono = "*"
