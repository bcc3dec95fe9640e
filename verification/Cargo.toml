[package]
name = "pathtracer"
version = "0.1.0"
edition = "2021"
publish = false

[dependencies]
tobj = "4"
wgpu = "0.20"
winit = "0.30"
glam = "*"
pollster = "*"
env_logger = "*"
log = "*"
