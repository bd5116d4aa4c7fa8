[package]
name = "raycaster_engine"
version = "0.1.0"
edition = "2021"
publish = false

[dependencies]
anyhow = "1"
glam = "*"
sdl2 = { version = "*", features = ["ttf", "mixer", "image"] }
