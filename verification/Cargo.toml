[package]
name = "screenzoom"
version = "0.1.0"
edition = "2021"
publish = false

[dependencies]
base64 = "0.22"
png = "*"
serde = { version = "1", features = ["derive"] }
serde_json = "1"
bytemuck = { version = "1", features = ["derive"] }
pollster = "*"
wgpu = "*"
rdev = "0.5.3"
windows-capture = "2.0.1"
