[package]
name = "orderbook_merger"
version = "0.1.0"
edition = "2021"
publish = false

[dependencies]
tokio = { version = "1", features = ["full"] }
tokio-tungstenite = "*"
tokio-stream = "0.1"
futures-util = "0.3"
tonic = "*"
prost = "*"
clap = "2"
log = "0.4"
url = "2"

[dev-dependencies]
chrono = "0.4"
