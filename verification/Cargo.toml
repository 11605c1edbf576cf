[package]
name = "rust_invaders"
version = "0.1.0"
edition = "2021"
publish = false

[dependencies]
rand = "0.8"
bevy = { version = "0.7", default-features = false, features = ["render", "bevy_winit", "png", "x11"] }
