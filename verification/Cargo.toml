[package]
name = "svo_tracer"
version = "0.1.0"
edition = "2021"
publish = false

[dependencies]
bytemuck = { version = "1", features = ["derive"] }
pollster = "0.3"
rand = "0.8"
spirv-std = "0.9"
wgpu = "0.17"
winit = "0.28"
