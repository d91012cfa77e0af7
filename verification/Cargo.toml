[package]
name = "loi"
version = "0.1.0"
edition = "2021"
publish = false

[dependencies]
regex = "=1.13.1"
owo-colors = "=4.4.0"
colored = "*"
clap = { version = "=4.6.7", features = ["derive"] }
serde = { version = "=1.0.229", features = ["derive"] }
serde_json = "=1.0.154"
