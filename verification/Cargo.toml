[package]
name = "bevy_world"
version = "0.1.0"
edition = "2021"
publish = false

[dependencies]
anyhow = "=1.0.104"
image = { version = "=0.23.14", default-features = false, features = ["hdr", "png", "jpeg", "bmp", "tga", "dds"] }
naga = { version = "=0.8.5", features = ["wgsl-in", "glsl-in", "spv-in", "spv-out", "wgsl-out"] }
rodio = { version = "=0.21.1", default-features = false, features = ["mp3", "wav"] }
ron = "0.7"
serde = "1"
thiserror = "=1.0.69"
wgpu = { version = "=0.12.0", features = ["spirv"] }
