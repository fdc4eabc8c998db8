[package]
name = "kanshi_generate"
version = "0.1.0"
edition = "2021"
publish = false

[dependencies]
serde_json = "*"
serde = { version = "*", features = ["derive"] }
thiserror = "*"
clap = { version = "*", features = ["derive"] }
color-eyre = "*"
wayland-client = "*"
wayland-protocols-wlr = { version = "*", features = ["client"] }
