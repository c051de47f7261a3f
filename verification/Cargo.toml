[package]
name = "januas"
version = "0.1.0"
edition = "2021"
publish = false

[dependencies]
png = "0.17"
anyhow = "1"
bytemuck = { version = "1", features = ["derive"] }
pollster = "0.4"
tracing = "0.1"
tracing-subscriber = { version = "0.3", features = ["env-filter"] }
portable-pty = "0.9"
alacritty_terminal = "*"
wgpu = "*"
winit = "0.30"
glyphon = "*"
