[package]
name = "brows"
version = "0.1.0"
edition = "2021"
publish = false

[dependencies]
anyhow = "1"
dirs-next = "2"
egui = "0.27"
raw-window-handle = "0.6"
serde = { version = "1", features = ["derive"] }
toml = "0.8"
winreg = "0.52"
