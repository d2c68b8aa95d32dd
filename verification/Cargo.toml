[package]
name = "lumen"
version = "0.1.0"
edition = "2021"
publish = false

[dependencies]
anyhow = "1"
clap = { version = "4", features = ["derive"] }
hidapi = "2"
serde = { version = "1", features = ["derive"] }
thiserror = "2"
toml = "0.8"
