[package]
name = "packet_racers"
version = "0.1.0"
edition = "2021"
publish = false

[dependencies]
uuid = { version = "1", features = ["v4"] }
tokio = { version = "1", features = ["net", "io-util", "time", "rt-multi-thread", "macros", "fs", "sync"] }
async-trait = "0.1"
log = "0.4"
env_logger = "0.11"
