[package]
name = "ambilight_player"
version = "0.1.0"
edition = "2021"
publish = false

[dependencies]
clap = { version = "4", features = ["derive"] }
signal-hook = "0.3"
