[package]
name = "geodata_editor"
version = "0.1.0"
edition = "2021"
publish = false

[dependencies]
bytemuck = { version = "1", features = ["derive"] }
egui = { version = "0.27", default-features = false, features = ["default_fonts"] }
egui-wgpu = { version = "0.27", default-features = false }
png = "=0.18.1"
pollster = "0.3"
semver = "=1.0.28"
serde = { version = "1", features = ["derive"] }
serde_json = "1"
sha2 = "=0.10.9"
ureq = "2"
wgpu = { version = "0.19", default-features = false, features = ["wgsl"] }
