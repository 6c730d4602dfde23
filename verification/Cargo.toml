[package]
name = "rc_renderer"
version = "0.1.0"
edition = "2021"
publish = false

[dependencies]
image = { version = "0.25", default-features = false, features = ["png", "jpeg"] }
gltf = { version = "1", default-features = false }
serde = { version = "1", features = ["derive"] }
serde_json = "1"
bytemuck = { version = "1", features = ["derive"] }
thiserror = "2"
wgpu = { version = "*", default-features = false, features = ["wgsl"] }
