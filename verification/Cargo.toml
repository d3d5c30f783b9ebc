[package]
name = "newton_survivor"
version = "0.1.0"
edition = "2021"
publish = false

[dependencies]
avian3d = "0.3"
bevy = { version = "0.16", default-features = false, features = ["std", "bevy_asset", "bevy_color", "bevy_core_pipeline", "bevy_log", "bevy_pbr", "bevy_render", "bevy_state", "bevy_window"] }
noise = "0.9"
rand = "0.8"
