[package]
name = "rhythm_game"
version = "0.1.0"
edition = "2021"
publish = false

[dependencies]
arc-swap = "*"
crossbeam-channel = "*"
kira = "*"
macroquad = "*"
rfd = "*"
ron = "*"
serde = { version = "*", features = ["derive"] }
triple_buffer = "*"
