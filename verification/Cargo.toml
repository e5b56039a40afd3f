[package]
name = "dynamo-llm"
version = "0.7.0"
edition = "2021"
publish = false

[dependencies]
anyhow = "1"
async-stream = "0.3"
async-trait = "0.1"
axum = "0.8"
blake3 = "1"
bytes = "1"
derive_builder = "0.20"
futures = "0.3"
json-five = "*"
object_store = { version = "0.12", features = ["aws"] }
prometheus = "0.14"
rand = "0.9"
rmp-serde = "1"
serde = { version = "1", features = ["derive"] }
serde_json = "1"
thiserror = "2"
tokio = { version = "1", features = ["full"] }
tokio-stream = "0.1"
tokio-util = { version = "0.7", features = ["codec", "net"] }
tracing = "0.1"
url = "2"
uuid = { version = "1", features = ["v4"] }
xxhash-rust = { version = "0.8", features = ["xxh3"] }
zeromq = "0.4"
