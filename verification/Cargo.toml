[package]
name = "prodplan"
version = "0.1.0"
edition = "2021"
publish = false

[dependencies]
colored = "*"
csv = "*"
serde = { version = "*", features = ["derive"] }
serde_json = "*"
