[package]
name = "zeron"
version = "0.1.0"
edition = "2021"
publish = false

[dependencies]
anyhow = "=1.0.104"
ashpd = { version = "=0.13.13", features = ["global_shortcuts", "screenshot"] }
async-trait = "=0.1.92"
atspi = { version = "=0.30.0", features = ["connection", "p2p", "proxies", "tokio"] }
chrono = "=0.4.45"
futures = "=0.3.34"
png = "=0.17.16"
serde = { version = "=1.0.229", features = ["derive"] }
serde_json = "=1.0.154"
tokio = { version = "=1.54.1", features = ["rt", "rt-multi-thread", "macros", "time", "net", "sync"] }
tokio-tungstenite = "=0.30.0"
tracing = "=0.1.44"
url = "=2.5.8"
uuid = { version = "=1.29.0", features = ["v4"] }
x11rb = { version = "=0.13.2", features = ["image"] }
