[package]
name = "cdp_client"
version = "0.1.0"
edition = "2021"
publish = false

[dependencies]
serde_json = "*"
reqwest = { version = "*", default-features = false, features = ["blocking", "json"] }
websocket = { version = "*", default-features = false, features = ["sync"] }
