[package]
name = "pqpart"
version = "0.1.0"
edition = "2021"
publish = false

[dependencies]
parquet = { version = "*", default-features = false, features = ["arrow", "json"] }
arrow-array = "*"
arrow-schema = "*"
clap = { version = "*", features = ["derive"] }
eyre = "*"
serde_json = "*"
bytes = "*"
