[package]
name = "cloakroom"
version = "0.1.0"
edition = "2021"
publish = false

[dependencies]
anyhow = "1"
clap = "4"
serde = { version = "1", features = ["derive"] }
sha2 = "0.10"
tempfile = "3"
toml = "*"
