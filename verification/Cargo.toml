[package]
name = "hackagotchi"
version = "0.1.0"
edition = "2021"
publish = false

[dependencies]
rand = "*"
humantime = "*"
crossbeam-channel = "*"
serde = { version = "*", features = ["derive"] }
serde_json = "*"
