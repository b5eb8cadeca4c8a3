[package]
name = "raycaster"
version = "0.1.0"
edition = "2021"
publish = false

[dependencies]
minifb = "0.25"
nalgebra-glm = "0.18"
once_cell = "1"
rodio = "0.17"
rusttype = "0.9"
