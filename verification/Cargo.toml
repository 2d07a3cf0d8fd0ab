[package]
name = "queuecast"
version = "0.1.0"
edition = "2021"
publish = false

[dependencies]
chrono = { version = "0.4", features = ["serde"] }
clap = "4"
serde = { version = "1", features = ["derive"] }
serde_json = "1"
sha2 = "0.10"
