[package]
name = "obs-core"
version = "0.1.0"
edition = "2021"
publish = false

[dependencies]
arc-swap = "=1.9.3"
blake3 = "=1.8.7"
buffa = "=0.9.2"
bytes = "=1.12.1"
dashmap = "=6.2.1"
getrandom = "=0.3.4"
governor = "=0.10.4"
http = "=1.5.0"
linkme = "=0.3.37"
notify = "=8.2.1"
once_cell = "=1.21.4"
parking_lot = "=0.12.5"
pin-project-lite = "=0.2.17"
secrecy = "=0.10.3"
serde = { version = "=1.0.229", features = ["derive"] }
serde_json = "=1.0.154"
serde_yaml = "=0.9.34"
thiserror = "=2.0.21"
tokio = { version = "=1.54.1", features = ["rt", "rt-multi-thread", "sync", "time", "macros"] }
winnow = "0.7"
