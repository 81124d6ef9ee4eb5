[package]
name = "particle_pool"
version = "0.1.0"
edition = "2021"
publish = false

[dependencies]
rand = "0.8"
minifb = "*"
softbuffer = "0.4"
winit = "0.30"
