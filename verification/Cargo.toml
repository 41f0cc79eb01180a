[package]
name = "argus_core"
version = "0.1.0"
edition = "2021"
publish = false

[dependencies]
serde_json = "1"
roxmltree = "*"
sha2 = "0.10"
hex = "0.4"
serde = { version = "1", features = ["derive"] }
uuid = { version = "1", features = ["v7"] }
