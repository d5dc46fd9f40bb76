[package]
name = "firework"
version = "0.1.0"
edition = "2021"
publish = false

[dependencies]
glam = "*"
moonwalk = "*"
winit = "0.29"
once_cell = "1"
ndk-glue = "0.7"
