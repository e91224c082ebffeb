[package]
name = "robotsim"
version = "0.1.0"
edition = "2021"
publish = false

[dependencies]
urdf-rs = "*"
k = "*"
rapier3d = "*"
mesh-loader = "*"
