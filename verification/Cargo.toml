[package]
name = "voxel_world"
version = "0.1.0"
edition = "2021"
publish = false

[dependencies]
rand = "0.8"
glam = "0.20"
bytemuck = { version = "1", features = ["derive"] }
wgpu = "0.12"
winit = "0.26"
env_logger = "0.9"
pollster = "0.2"
