[package]
name = "orbit-state"
version = "0.1.0"
edition = "2021"
publish = false

[dependencies]
regex = "1"
serde = { version = "1", features = ["derive"] }
serde_json = "1"
serde_yaml = "0.9"
time = { version = "0.3", features = ["formatting", "parsing", "local-offset"] }
uuid = { version = "1", features = ["v4"] }
