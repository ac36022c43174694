[package]
name = "svg_painter"
version = "0.1.0"
edition = "2021"
publish = false

[dependencies]
rand = "*"
tiny-skia = "*"
resvg = "*"
usvg = "*"
fontdb = "*"
