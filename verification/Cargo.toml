[package]
name = "pxx"
version = "0.1.0"
edition = "2021"
publish = false

[dependencies]
clap = { version = "3", features = ["derive"] }
once_cell = "1"
pin-project = "1"
tokio = { version = "1", features = ["full"] }
