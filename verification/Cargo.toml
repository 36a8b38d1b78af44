[package]
name = "coverage_geometry"
version = "0.1.0"
edition = "2021"

[dependencies]
clipper2 = "*"
lyon = "1"
iced_graphics = { version = "*", features = ["geometry"] }
