[package]
name = "camera_path"
version = "0.1.0"
edition = "2021"
publish = false

[dependencies]
glium = "0.32"
ffmpeg-next = "4.4"
