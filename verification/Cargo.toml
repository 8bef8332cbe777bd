[package]
name = "orisa"
version = "0.1.0"
edition = "2021"
publish = false

[dependencies]
multimap = "=0.10.1"
serde = { version = "*", features = ["derive"] }
serde_json = "*"
