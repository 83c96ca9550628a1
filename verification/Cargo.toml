[package]
name = "optix"
version = "0.1.0"
edition = "2021"
publish = false

[dependencies]
alacritty_terminal = "*"
arboard = { version = "3", features = ["wayland-data-control"] }
base64 = "0.22"
bytemuck = { version = "1", features = ["derive"] }
cosmic-text = "*"
env_logger = "*"
image = { version = "0.25", default-features = false, features = ["bmp", "dds", "exr", "ff", "gif", "hdr", "ico", "jpeg", "png", "pnm", "qoi", "tga", "tiff", "webp"] }
libc = "0.2"
log = "0.4"
miniz_oxide = { version = "*", features = ["std"] }
pollster = "*"
serde = { version = "1", features = ["derive"] }
toml = "*"
wgpu = "*"
winit = "0.30"
