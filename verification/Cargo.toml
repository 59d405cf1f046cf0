[package]
name = "leanspec"
version = "0.1.0"
edition = "2021"
publish = false

[dependencies]
chrono = { version = "0.4", features = ["serde"] }
serde = { version = "1", features = ["derive"] }
serde_yaml = "0.9"
dirs = "5"
once_cell = "1"
parking_lot = "0.12"
