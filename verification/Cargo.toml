[package]
name = "ui_scene"
version = "0.1.0"
edition = "2021"
publish = false

[dependencies]
wgpu = { version = "24", default-features = false }
