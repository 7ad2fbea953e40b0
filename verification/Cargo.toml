[package]
name = "draco"
version = "0.1.0"
edition = "2021"
publish = false

[dependencies]
regex = "*"
cron = "*"
chrono = "*"
uuid = { version = "*", features = ["v4"] }
tokio = { version = "*", features = ["rt-multi-thread", "macros", "signal", "net", "time", "sync", "io-util"] }
async-nats = "*"
futures-lite = "*"
serde_json = "*"
anyhow = "*"
async-trait = "*"
