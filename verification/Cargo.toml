[package]
name = "pinggraph"
version = "0.1.0"
edition = "2021"
publish = false

[dependencies]
chrono = "*"
clap = { version = "*", features = ["derive"] }
colored = "*"
pnet = "*"
serde = { version = "*", features = ["derive"] }
serde_json = "*"
