[package]
name = "dumptruckrss"
version = "0.1.0"
edition = "2021"
publish = false

[dependencies]
chrono = "0.4"
rss = "2"
reqwest = { version = "0.12", default-features = false, features = ["stream"] }
tokio = { version = "1", features = ["rt-multi-thread", "macros", "fs", "io-util"] }
tokio-util = { version = "0.7", features = ["compat"] }
futures = "0.3"
clap = "2"
log = "0.4"
env_logger = "0.11"
