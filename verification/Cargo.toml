[package]
name = "paneru"
version = "0.1.0"
edition = "2021"
publish = false

[dependencies]
arc-swap = "1"
bevy = { version = "0.17", default-features = false }
clap = { version = "4", features = ["derive", "cargo"] }
notify = "*"
regex = "1"
serde = { version = "1", features = ["derive"] }
toml = "*"
tracing = "0.1"
tracing-subscriber = { version = "0.3", features = ["env-filter"] }
