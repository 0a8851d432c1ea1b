[package]
name = "doctree"
version = "0.1.0"
edition = "2021"
publish = false

[dependencies]
serde_json = { version = "1", features = ["preserve_order"] }
serde_yaml = "0.9"
toml = { version = "0.8", features = ["preserve_order"] }
notify = "6"
tokio = { version = "1", features = ["rt", "rt-multi-thread", "sync", "macros"] }
