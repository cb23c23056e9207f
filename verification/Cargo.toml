[package]
name = "softrender"
version = "0.1.0"
edition = "2021"
publish = false

[dependencies]
fastrand = "*"
fastnoise-lite = "*"
image = { version = "*", default-features = false, features = ["png"] }
minifb = "*"
nalgebra-glm = "*"
tobj = "*"
