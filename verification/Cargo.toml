[package]
name = "pickey"
version = "0.1.0"
edition = "2021"
publish = false

[dependencies]
clap = { version = "4", features = ["derive"] }
dirs = "5"
glob-match = "0.2"
serde = { version = "1", features = ["derive"] }
toml = "0.8"
