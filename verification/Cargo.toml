[package]
name = "radicle_node"
version = "0.1.0"
edition = "2021"
publish = false

[dependencies]
anyhow = "1"
crossbeam-channel = "0.5"
fastrand = "1"
lexopt = "*"
log = "0.4"
nakamoto-net = "*"
serde = { version = "1", features = ["derive"] }
serde_json = "1"
serde_yaml = "*"
thiserror = "1"
