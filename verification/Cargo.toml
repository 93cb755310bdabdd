[package]
name = "lightbyte"
version = "0.1.0"
edition = "2021"
publish = false

[dependencies]
chacha20poly1305 = "0.10"
rand = { version = "0.9", default-features = false, features = ["os_rng"] }
walkdir = "2"
zstd = { version = "0.13", default-features = false }
