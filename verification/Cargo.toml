[package]
name = "rsrpc"
version = "0.36.1"
edition = "2021"
publish = false

[dependencies]
aho-corasick = "=1.1.5"
arc-swap = "=1.9.3"
bytes = "=1.12.1"
interprocess = "=2.4.7"
libc = "=0.2.191"
rmp-serde = "=1.3.1"
rustc-hash = "=2.1.3"
serde = { version = "=1.0.229", features = ["derive"] }
serde_json = { version = "=1.0.154", features = ["preserve_order"] }
sysinfo = "=0.33.1"
tokio = { version = "=1.54.1", features = ["sync", "rt", "rt-multi-thread", "macros", "net", "time"] }
tokio-util = "=0.7.20"
tracing = "=0.1.44"
tungstenite = "=0.26.2"
