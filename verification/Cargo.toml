[package]
name = "launch"
version = "0.1.0"
edition = "2021"
publish = false

[dependencies]
image = { version = "0.25", default-features = false, features = ["png", "jpeg", "webp"] }
imageproc = "0.25"
ab_glyph = "0.2"
png = "0.17"
anyhow = "1"
clap = { version = "4", features = ["derive"] }
