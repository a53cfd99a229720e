[package]
name = "superposition_core"
version = "0.1.0"
edition = "2021"
publish = false

[dependencies]
serde = { version = "=1.0.229", features = ["derive"] }
serde_json = "=1.0.151"
log = "=0.4.34"
reqwest = { version = "=0.13.5", default-features = false, features = ["blocking", "json", "query"] }
