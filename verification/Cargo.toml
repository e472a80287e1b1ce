[package]
name = "botcore"
version = "0.1.0"
edition = "2021"
publish = false

[dependencies]
rand = "0.8"
nalgebra = "0.32"
log = "0.4"
env_logger = "0.10"
winit = "0.29"
imgui = "0.11"
