[package]
name = "voltic"
version = "0.1.0"
edition = "2021"
publish = false

[dependencies]
wgpu = "27"
bytemuck = { version = "1", features = ["derive"] }
pollster = "0.4"
rand = "0.10"
