[package]
name = "boids"
version = "0.1.0"
edition = "2021"
publish = false

[dependencies]
rand = "0.9"
bevy = { version = "0.16", default-features = false, features = ["std", "bevy_asset", "bevy_color", "bevy_core_pipeline", "bevy_dev_tools", "bevy_gizmos", "bevy_pbr", "bevy_render", "bevy_text", "bevy_ui", "bevy_window"] }
