[package]
name = "minesweeper_rs"
version = "0.1.0"
edition = "2021"
publish = false

[dependencies]
rand = "=0.8.8"
piston = "=1.0.0"
piston2d-graphics = "=0.45.0"
piston2d-opengl_graphics = "=0.89.0"
pistoncore-glfw_window = "=0.82.0"
piston-viewport = "*"
