[package]
name = "arwah"
version = "0.1.0"
edition = "2021"
publish = false

[dependencies]
etherparse = "*"
ipnet = "*"
chrono = "*"
dashmap = "*"
serde = { version = "*", features = ["derive"] }
serde_json = "*"
tokio = { version = "*", features = ["full"] }
pcap = "*"
maxminddb = "*"
clap = { version = "*", features = ["derive", "env"] }
crossterm = { version = "*", features = ["event-stream"] }
ratatui = "*"
tracing = "*"
tracing-subscriber = { version = "*", features = ["env-filter", "fmt"] }
thiserror = "*"
anyhow = "*"
async-trait = "*"
futures = "*"
libc = "*"
parking_lot = "*"
