[package]
name = "api_query"
version = "0.1.0"
edition = "2021"
publish = false

[dependencies]
anyhow = "1"
chrono = "0.4"
cj-path-util = "*"
clap = { version = "4", features = ["derive"] }
crc-fast = "*"
csv = "1"
futures = "0.3"
num-traits = "0.2"
rand = "0.8"
regex = "1"
reqwest = { version = "0.12", default-features = false }
tokio = { version = "1", features = ["full"] }
