[package]
name = "cplace"
version = "0.1.0"
edition = "2021"
publish = false

[dependencies]
lru = "0.16"
image = { version = "0.25", default-features = false, features = ["png"] }
log = "0.4"
env_logger = "0.11"
anyhow = "1"
pollster = "0.4"
bytemuck = { version = "1", features = ["derive"] }
web-time = "1"
wgpu = { version = "27", default-features = false, features = ["std", "wgsl", "vulkan", "gles", "parking_lot"] }
winit = "0.30"
egui = "0.33"
egui-wgpu = "0.33"
egui-winit = { version = "0.33", default-features = false, features = ["wayland", "x11"] }
reqwest = { version = "0.12", default-features = false, features = ["blocking", "rustls-tls"] }
serde = { version = "1", features = ["derive"] }
rkyv = "0.7"
bytecheck = "0.6"
mmap-sync = "2"
