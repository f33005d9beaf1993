[package]
name = "orchestre"
version = "0.1.0"
edition = "2021"
publish = false

[dependencies]
arc-swap = "1"
env_logger = "0.11"
rand = "0.9"
rodio = "0.22"
symphonia = { version = "0.6", features = ["all"] }
uuid = { version = "1", features = ["v4"] }
