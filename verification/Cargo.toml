[package]
name = "pacjump"
version = "0.1.0"
edition = "2021"
publish = false

[dependencies]
indexmap = "*"
alpm = "*"
clap = { version = "*", features = ["derive"] }
serde = { version = "*", features = ["derive"] }
serde_json = "*"
anyhow = "*"
