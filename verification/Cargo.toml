[package]
name = "dontspeak"
version = "0.1.0"
edition = "2021"
publish = false

[dependencies]
agent-client-protocol = "*"
anyhow = "1"
futures = "0.3"
log = "0.4"
schemars = "1"
serde = { version = "1", features = ["derive"] }
serde_json = { version = "1", features = ["preserve_order"] }
strum = { version = "0.27", features = ["derive"] }
