[package]
name = "viceptica"
version = "0.1.0"
edition = "2021"
publish = false

[dependencies]
cgmath = "0.18"
glow = "0.13"
glutin = "0.31"
glutin-winit = "0.4"
raw-window-handle = "0.5"
winit = "0.29"
image = { version = "0.25", default-features = false, features = ["png"] }
itertools = "0.14"
parry3d = "0.17"
rkyv = "0.8"
serde = { version = "1", features = ["derive"] }
serde_json = "1"
tobj = "4"
winapi = { version = "0.3", features = ["winuser"] }
