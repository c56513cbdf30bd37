[package]
name = "determinisk"
version = "0.1.0"
edition = "2021"
publish = false

[dependencies]
sha2 = "0.10"
fixed = "1"
serde = { version = "1", features = ["derive"] }
serde_json = "1"
toml = "*"
clap = { version = "4", features = ["derive"] }
