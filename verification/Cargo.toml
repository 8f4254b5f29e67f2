[package]
name = "zellij_agent_threads"
version = "0.1.0"
edition = "2021"
publish = false

[dependencies]
serde = { version = "=1.0.229", features = ["derive"] }
serde_json = "=1.0.154"
minijinja = "=3.0.5"
minijinja-embed = "=3.0.5"
zellij-tile = "0.44"
