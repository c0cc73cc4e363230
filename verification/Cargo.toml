[package]
name = "d7engine"
version = "0.1.0"
edition = "2021"
publish = false

[dependencies]
sha2 = "=0.10.9"
gl = "=0.14.0"
nalgebra-glm = "=0.21.0"
directories = "=6.0.0"
sdl2 = "=0.38.0"
rusttype = "=0.9.3"
image = { version = "0.24", default-features = false, features = ["png", "bmp"] }
