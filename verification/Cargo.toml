[package]
name = "followgraph"
version = "0.1.0"
edition = "2021"
publish = false

[dependencies]
dorsal = "*"
serde = { version = "*", features = ["derive"] }
serde_json = "*"
