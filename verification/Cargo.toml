[package]
name = "localpipeline"
version = "0.1.0"
edition = "2021"
publish = false

[dependencies]
anyhow = "*"
dirs = "*"
ratatui = "*"
serde = { version = "*", features = ["derive"] }
toml = "*"
