[package]
name = "eventcast"
version = "0.1.0"
edition = "2021"
publish = false

[dependencies]
serde_json = "1"
clap = { version = "4", features = ["derive"] }
csv = "1"
eyre = "0.6"
log = "0.4"
simple_logger = "*"
