[package]
name = "token-leaderboard"
version = "0.1.0"
edition = "2021"
publish = false

[dependencies]
comfy-table = "7"
dirs = "6"
serde = { version = "1", features = ["derive"] }
serde_json = "1"
zstd = "0.13"
