[package]
name = "mandelbrot"
version = "0.1.0"
edition = "2021"
publish = false

[dependencies]
colorous = "1"
rayon = "1"
image = "*"
