[package]
name = "balancer_core"
version = "0.1.0"
edition = "2021"
publish = false

[dependencies]
anyhow = "1"
async-trait = "0.1"
futures-util = { version = "0.3", features = ["sink"] }
hickory-resolver = "0.24"
humantime = "2"
rand = "0.8"
serde = { version = "1", features = ["derive"] }
serde_json = "1"
tokio = { version = "1", features = ["net", "time", "rt"] }
tokio-tungstenite = "0.21"
tracing = "0.1"
tungstenite = "0.21"
