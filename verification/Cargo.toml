[package]
name = "shotori"
version = "0.8.0"
edition = "2021"
publish = false

[dependencies]
png = "*"
serde = { version = "1", features = ["derive"] }
serde_json = "1"
chrono = "*"
image = { version = "*", default-features = false, features = ["png"] }
anyhow = "1"
notify-rust = "*"
wayland-client = "*"
wayland-protocols = { version = "*", features = ["client", "unstable"] }
wayland-protocols-wlr = { version = "*", features = ["client"] }
memmap2 = "*"
tempfile = "*"
niri-ipc = "*"
