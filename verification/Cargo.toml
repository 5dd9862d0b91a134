[package]
name = "mfte-rs"
version = "0.1.0"
edition = "2021"
publish = false

[dependencies]
anyhow = "1"
byteorder = "1"
chrono = { version = "0.4", features = ["serde"] }
clap = { version = "4", features = ["derive"] }
csv = "1"
env_logger = "*"
hex = "0.4"
log = "0.4"
memmap2 = "*"
serde = { version = "1", features = ["derive"] }
serde_json = "1"
