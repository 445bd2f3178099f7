[package]
name = "tobyscope-x11"
version = "0.1.0"
edition = "2021"
publish = false

[dependencies]
anyhow = "1"
dirs-next = "2"
i3ipc = "0.10"
image = { version = "0.25", default-features = false, features = ["png"] }
serde = { version = "1", features = ["derive"] }
serde_json = "1"
toml = "0.8"
x11rb = { version = "0.13", features = ["composite", "render"] }
