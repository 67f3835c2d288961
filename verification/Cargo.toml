[package]
name = "void_portal"
version = "0.1.0"
edition = "2021"
publish = false

[dependencies]
bevy = { version = "0.17", default-features = false, features = ["std", "bevy_log", "bevy_state", "bevy_asset", "bevy_scene", "bevy_window", "bevy_sprite", "bevy_text", "bevy_ui", "bevy_picking"] }
bevy_common_assets = { version = "0.14", features = ["ron"] }
rand = "0.9"
serde = { version = "1", features = ["derive"] }
ron = "*"
anyhow = "1"
