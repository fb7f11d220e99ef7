[package]
name = "x8"
version = "0.1.0"
edition = "2021"
publish = false

[dependencies]
diffs = "0.5"
percent-encoding = "2"
rand = "0.7"
regex = "1"
url = "2"
colored = "2"
http = "0.2"
reqwest = { version = "0.11", default-features = false }
tokio = { version = "1", features = ["rt-multi-thread", "macros", "fs", "io-util", "time"] }
futures = "0.3"
indicatif = "0.17"
atty = "0.2"
env_logger = "0.10"
parking_lot = "0.12"
strip-ansi-escapes = "0.1"
serde = { version = "1", features = ["derive"] }
serde_json = "1"
clap = "2"
