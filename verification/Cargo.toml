[package]
name = "maze"
version = "0.1.0"
edition = "2021"
publish = false

[dependencies]
bevy = { version = "=0.17.3", default-features = false, features = ["std", "bevy_color", "bevy_log", "bevy_window", "bevy_render", "bevy_core_pipeline", "bevy_pbr", "bevy_text", "bevy_ui", "bevy_ui_render", "default_font"] }
rand = "=0.10.3"
serde = { version = "=1.0.229", features = ["derive"] }
toml = "=1.1.8"
