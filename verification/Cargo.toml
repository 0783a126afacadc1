[package]
name = "wxpg"
version = "0.1.0"
edition = "2021"
publish = false

[dependencies]
bevy_ecs = "0.14"
bytemuck = { version = "1", features = ["derive"] }
cgmath = "0.18"
egui = "0.29"
egui-wgpu = "0.29"
egui-winit = { version = "0.29", default-features = false, features = ["wayland", "x11"] }
egui_plot = "0.29"
env_logger = "0.11"
log = "0.4"
pollster = "0.3"
rand = "0.8"
tobj = "4"
wgpu = "22"
winit = "0.30"
