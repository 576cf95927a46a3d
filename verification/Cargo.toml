[package]
name = "gossip"
version = "0.1.0"
edition = "2021"
publish = false

[dependencies]
async-trait = "0.1"
futures = "0.3"
heapless = "0.7"
human_ids = "*"
log = "0.4"
nanoid = "0.4"
postcard = "1"
rand = "0.9"
serde = { version = "1", features = ["derive"] }
tailscale-api = "*"
thiserror = "1"
tokio = { version = "1", features = ["rt-multi-thread", "sync", "time", "macros"] }
tsnet = "*"
