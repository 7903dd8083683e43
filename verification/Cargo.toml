[package]
name = "verdant"
version = "0.7.0"
edition = "2021"
publish = false

[dependencies]
bytemuck = { version = "1", features = ["derive"] }
fontdue = "*"
glam = "*"
image = { version = "*", default-features = false, features = ["png"] }
pollster = "*"
smol_str = "*"
wgpu = "*"
winit = "*"
