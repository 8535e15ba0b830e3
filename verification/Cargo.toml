[package]
name = "render-engine"
version = "0.1.0"
edition = "2021"
publish = false

[dependencies]
image = "=0.22.5"
vk-sys = "=0.5.0"
vulkano = "=0.16.0"
