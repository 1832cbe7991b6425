[package]
name = "linux_bundle"
version = "0.1.0"
edition = "2021"
publish = false

[dependencies]
image = "*"
icns = "*"
tar = "*"
libflate = "*"
md5 = "*"
walkdir = "*"
