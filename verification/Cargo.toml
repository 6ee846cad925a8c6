[package]
name = "waystart"
version = "0.1.0"
edition = "2021"
publish = false

[dependencies]
evalexpr = "*"
nucleo-matcher = "*"
serde = { version = "*", features = ["derive"] }
toml = "*"
dirs = "*"
smol = "*"
freedesktop-desktop-entry = "*"
freedesktop-icons = "*"
nmrs = "*"
