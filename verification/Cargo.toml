[package]
name = "tower_def"
version = "0.1.0"
edition = "2021"
publish = false

[dependencies]
tiled = "=0.9.2"
amethyst = { version = "=0.15.3", default-features = false, features = ["renderer", "empty"] }
