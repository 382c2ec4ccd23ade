[package]
name = "zeebx"
version = "0.1.0"
edition = "2021"
publish = false

[dependencies]
rustc-hash = "2"
libc = "0.2"
glow = "*"
