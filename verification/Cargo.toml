[package]
name = "sample_range"
version = "0.1.0"
edition = "2021"
publish = false

[dependencies]
ash = "0.38"
ash-window = "0.13"
fontdue = "0.9"
glam = "0.29"
gpu-allocator = "0.27"
png = "0.17"
raw-window-handle = "0.6"
serde_json = "1"
tungstenite = "0.24"
winit = "0.30"
