[package]
name = "flaredb"
version = "0.1.0"
edition = "2021"
publish = false

[dependencies]
anyhow = "1"
arrow-array = "*"
arrow-buffer = "*"
arrow-flight = { version = "*", features = ["flight-sql"] }
arrow-ipc = "*"
arrow-schema = "*"
async-trait = "0.1"
beam-model-rs = "*"
bytes = "1"
dashmap = "6"
env_logger = "0.11"
futures = "0.3"
indexmap = "2"
log = "0.4"
petgraph = "*"
prost = "*"
rand = "*"
serde = { version = "1", features = ["derive"] }
serde_json = "1"
thiserror = "2"
tokio = { version = "1", features = ["full"] }
tokio-stream = "0.1"
tonic = "*"
uuid = { version = "1", features = ["v4"] }
