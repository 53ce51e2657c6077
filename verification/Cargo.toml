[package]
name = "wgx"
version = "0.1.0"
edition = "2021"
publish = false

[dependencies]
memchr = "2"
hashbrown = "*"
anyhow = "1"
wgpu = "*"
naga = { version = "*", features = ["wgsl-in"] }
bytemuck = { version = "1", features = ["derive"] }
arrayvec = "0.7"
glam = { version = "*", features = ["bytemuck", "serde"] }
instant = "0.1"
serde = { version = "1", features = ["derive"] }
cgmath = "0.18"
num-traits = "0.2"

[dev-dependencies]
serde_json = "1"
