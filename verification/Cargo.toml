[package]
name = "marauders"
version = "0.1.0"
edition = "2021"
publish = false

[dependencies]
ignore = "*"
serde = { version = "*", features = ["derive"] }
toml = "*"
