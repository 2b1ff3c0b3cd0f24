[package]
name = "sdaa_async"
version = "0.1.0"
edition = "2021"
publish = false

[dependencies]
tokio = { version = "1", features = ["net", "fs", "io-util", "time", "sync", "rt-multi-thread", "macros"] }
clap = { version = "4", features = ["derive"] }
chrono = "0.4"
futures-core = "0.3"
futures-util = "0.3"
async-stream = "0.3"
