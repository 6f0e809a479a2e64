[package]
name = "agent_os"
version = "0.1.0"
edition = "2021"
publish = false

[dependencies]
serde = { version = "=1.0.229", features = ["derive"] }
serde_json = "=1.0.154"
tokio = { version = "=1.54.1", features = ["rt-multi-thread", "macros", "sync", "time"] }
async-trait = "=0.1.92"
futures = "=0.3.34"
reqwest = { version = "=0.12.28", default-features = false, features = ["json", "rustls-tls"] }
tokio-util = { version = "=0.7.20", features = ["codec", "io"] }
pty = "=0.2.2"
libc = "=0.2.191"
url = "=2.5.8"
