[package]
name = "boxel"
version = "0.1.0"
edition = "2021"
publish = false

[dependencies]
bevy = { version = "0.17", default-features = false, features = ["std", "bevy_pbr", "bevy_window", "bevy_log"] }
bevy_flycam = "0.17"
