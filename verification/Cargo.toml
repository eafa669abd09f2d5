[package]
name = "kcp_peer"
version = "0.1.0"
edition = "2021"
publish = false

[dependencies]
atomic-waker = "1"
bytes = "1"
kcp = "*"
rand = "0.9"
thiserror = "2"
tokio = { version = "1", features = ["net", "rt", "rt-multi-thread", "macros", "sync", "time", "io-util"] }
tokio-util = "0.7"
tracing = "0.1"
