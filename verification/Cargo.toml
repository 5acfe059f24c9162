[package]
name = "face_stabilizer"
version = "0.1.0"
edition = "2021"
publish = false

[dependencies]
clap = { version = "*", features = ["derive", "env"] }
image = "*"
imageproc = "*"
glam = "*"
rayon = "*"
dlib-face-recognition = "*"
