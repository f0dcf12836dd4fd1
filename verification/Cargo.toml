[package]
name = "tower_defense"
version = "0.1.0"
edition = "2021"
publish = false

[dependencies]
amethyst = { version = "0.15", default-features = false, features = ["animation", "audio", "renderer", "vulkan"] }
anyhow = "1"
log = "0.4"
nalgebra = "0.19"
serde = { version = "1", features = ["derive"] }
