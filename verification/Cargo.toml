[package]
name = "itb_io"
version = "0.1.0"
edition = "2021"
publish = false

[dependencies]
directories = "*"
lazy_static = "1"
mlua = { version = "0.9", features = ["lua51", "module"] }
path-absolutize = "3"
pathdiff = "0.2"
thiserror = "1"
walkdir = "2"
