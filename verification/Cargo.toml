[package]
name = "lazymenu_cli"
version = "0.1.0"
edition = "2021"
publish = false

[dependencies]
crossterm = "0.29"
ctrlc = "3"
serde = { version = "1", features = ["derive"] }
toml = "0.9"
