[package]
name = "currawong"
version = "0.1.0"
edition = "2021"
publish = false

[dependencies]
bytemuck = { version = "1", features = ["derive"] }
egui = { version = "0.34", default-features = false }
egui-wgpu = { version = "0.34", default-features = false }
egui-winit = { version = "0.34", default-features = false }
glam = { version = "0.30", features = ["bytemuck"] }
gltf = { version = "1", default-features = false, features = ["utils", "names"] }
image = { version = "0.25", default-features = false, features = ["png"] }
notify = "8"
pollster = "0.4"
ron = "0.8"
serde = { version = "1", features = ["derive"] }
wgpu = { version = "29", default-features = false, features = ["wgsl", "std"] }
winit = { version = "0.30", default-features = false, features = ["rwh_06", "x11"] }
