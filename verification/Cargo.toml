[package]
name = "shotcaller"
version = "0.1.0"
edition = "2021"
publish = false

[dependencies]
minigene = "=0.7.0"
serde = { version = "=1.0.229", features = ["derive"] }
serde_yaml = "=0.9.34"
crossterm = "=0.28.1"
