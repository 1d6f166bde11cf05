[package]
name = "wlr-trayd"
version = "0.1.0"
edition = "2021"
publish = false

[dependencies]
anyhow = "1"
env_logger = "*"
gtk4 = "*"
gtk4-layer-shell = "*"
image = { version = "*", default-features = false, features = ["png"] }
log = "0.4"
serde = { version = "1", features = ["derive"] }
serde_json = "1"
system-tray = "*"
tokio = { version = "1", features = ["full"] }
