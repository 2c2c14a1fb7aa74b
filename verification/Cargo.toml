[package]
name = "wavescope"
version = "0.1.3"
edition = "2021"
publish = false

[dependencies]
anyhow = "1"
bytemuck = { version = "1", features = ["derive"] }
claxon = "0.4"
egui = "0.28"
env_logger = { version = "0.11", default-features = false, features = ["humantime"] }
hound = "3"
log = "0.4"
pollster = "0.3"
wgpu = { version = "0.20", default-features = false, features = ["wgsl"] }
