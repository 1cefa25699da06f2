[package]
name = "prime_time"
version = "0.1.0"
edition = "2021"
publish = false

[dependencies]
num-bigint = "*"
serde_json = { version = "*", features = ["arbitrary_precision"] }
