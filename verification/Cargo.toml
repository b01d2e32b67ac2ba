[package]
name = "cjk_font_atlas"
version = "0.1.0"
edition = "2021"
publish = false

[dependencies]
clap = { version = "3", features = ["derive"] }
embedded-graphics = "0.7"
freetype-rs = "*"
image = { version = "0.24", default-features = false, features = ["png"] }
thiserror = "1"
