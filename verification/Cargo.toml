[package]
name = "connect_migrate"
version = "0.1.0"
edition = "2021"
publish = false

[dependencies]
apollo-parser = "0.8"
serde = { version = "1", features = ["derive"] }
serde_json = "1"
time = { version = "0.3", features = ["formatting"] }
clap = { version = "4", features = ["derive"] }
