[package]
name = "en_core"
version = "0.1.0"
edition = "2021"
publish = false

[dependencies]
hecs = "*"
macroquad = "*"
serde = { version = "*", features = ["derive"] }
serde_json = "*"
inventory = "*"
