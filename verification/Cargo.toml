[package]
name = "bevy_terrain"
version = "0.1.0"
edition = "2021"
publish = false

[dependencies]
image = "=0.24.9"
bevy = { version = "0.8", default-features = false, features = ["bevy_asset", "render", "bevy_winit", "x11"] }
bevy_flycam = "=0.8.1"
