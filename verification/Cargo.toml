[package]
name = "corinth"
version = "0.1.0"
edition = "2021"
publish = false

[dependencies]
nickel = "0.11"
serde = { version = "1", features = ["derive"] }
serde_json = "1"
