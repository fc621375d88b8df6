[package]
name = "breezy_timer"
version = "0.1.0"
edition = "2021"
publish = false

[dependencies]
cpu-time = "1"

[dev-dependencies]
rand = "0.8"
