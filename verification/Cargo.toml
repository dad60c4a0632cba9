[package]
name = "gwars"
version = "0.1.0"
edition = "2021"
publish = false

[dependencies]
rand = "0.8"
rodio = "0.17"
sdl2 = { version = "0.36", features = ["image", "ttf"] }
