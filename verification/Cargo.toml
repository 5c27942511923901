[package]
name = "jsonguard"
version = "0.2.8"
edition = "2021"
publish = false

[dependencies]
serde = "1"

[dev-dependencies]
serde_json = "1"
