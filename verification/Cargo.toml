[package]
name = "sdd_spec_check"
version = "0.1.0"
edition = "2021"
publish = false

[dependencies]
anyhow = "1"
clap = { version = "4", features = ["derive"] }
globset = "0.4"
ignore = "0.4"
owo-colors = "4"
regex = "1"
serde = { version = "1", features = ["derive"] }
toml = "0.8"
