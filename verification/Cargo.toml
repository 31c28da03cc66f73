[package]
name = "ciebii_lib"
version = "0.1.0"
edition = "2021"
publish = false

[dependencies]
anyhow = "1"
clap = { version = "4", features = ["derive"] }
colored = "2"
image = { version = "0.24", default-features = false, features = ["png", "jpeg"] }
macroquad = { version = "0.4", default-features = false }
thiserror = "1"
