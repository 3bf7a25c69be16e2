[package]
name = "progressive_image"
version = "0.1.0"
edition = "2021"
publish = false

[dependencies]
image = { version = "0.24", default-features = false, features = ["jpeg", "png", "webp"] }
rayon = "1"
pollster = "0.3"
env_logger = "0.10"
winit = { version = "0.29", default-features = false, features = ["rwh_06", "x11"] }
imgui = { version = "0.12", features = ["docking"] }
imgui-winit-support = "0.12"
