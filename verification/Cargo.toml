[package]
name = "pipe_logger_lib"
version = "0.1.0"
edition = "2021"
publish = false

[dependencies]
chrono = "*"
path-absolutize = "*"
xz2 = "*"
