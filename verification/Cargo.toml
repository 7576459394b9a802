[package]
name = "tilemap_core"
version = "0.1.0"
edition = "2021"
publish = false

[dependencies]
bevy = { version = "=0.18.1", default-features = false, features = ["bevy_asset", "bevy_image", "std"] }
