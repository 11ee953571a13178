[package]
name = "hocuspocu_rs"
version = "4.2.0"
edition = "2021"
publish = false

[dependencies]
url = "=2.5.8"
uuid = { version = "=1.29.0", features = ["v4"] }
serde_json = "=1.0.154"
yrs = { version = "=0.21.3", features = ["sync"] }
tokio = { version = "=1.54.1", features = ["rt-multi-thread", "macros", "sync", "time", "net"] }
tokio-tungstenite = "=0.26.2"
futures-util = "=0.3.34"
async-trait = "=0.1.92"
tracing = "=0.1.44"
