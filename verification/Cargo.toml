[package]
name = "tokio-jsonrpc"
version = "0.1.0"
edition = "2021"
publish = false

[dependencies]
serde = { version = "1", features = ["derive"] }
serde_json = { version = "1", features = ["preserve_order"] }
futures = "0.1"
futures-mpsc = "*"
relay = "*"
tokio-core = "0.1"
