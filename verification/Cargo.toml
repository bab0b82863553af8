[package]
name = "imgrids"
version = "0.1.0"
edition = "2021"
publish = false

[dependencies]
ab_glyph = "0.2"
fontdue = "0.9"
libc = "0.2"
sdl2 = "*"
