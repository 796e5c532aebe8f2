[package]
name = "va"
version = "0.1.0"
edition = "2021"

[dependencies]
chrono = "0.4"
clap = "4"
dirs = "5"
serde = { version = "1", features = ["derive"] }
serde_json = "1"
