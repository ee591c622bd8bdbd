[package]
name = "jetem"
version = "0.1.0"
edition = "2021"
publish = false

[dependencies]
anyhow = "1"
arboard = { version = "3", default-features = false }
fontdue = "*"
portable-pty = "*"
serde = { version = "1", features = ["derive"] }
serde_json = "1"
softbuffer = "0.4"
toml = "*"
vte = "*"
winit = "0.30"
