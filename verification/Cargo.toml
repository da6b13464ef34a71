[package]
name = "license_header"
version = "0.1.0"
edition = "2021"
publish = false

[dependencies]
chrono = "0.4"
clap = "2"
git2 = "*"
serde = { version = "1", features = ["derive"] }
toml = "*"
