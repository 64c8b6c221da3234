[package]
name = "dungeoncrawl"
version = "0.1.0"
edition = "2021"
publish = false

[dependencies]
rand = "=0.8.8"
bracket-pathfinding = "=0.8.7"
ron = "=0.6.6"
serde = { version = "=1.0.229", features = ["derive"] }
bevy = { version = "=0.5.0", default-features = false, features = ["bevy_wgpu", "bevy_winit", "render", "png", "x11"] }
bevy_prototype_lyon = "0.3"
lyon_tessellation = "0.17"
