[package]
name = "quickshot"
version = "0.1.0"
edition = "2021"
publish = false

[dependencies]
anyhow = "=1.0.104"
arboard = { version = "=3.7.0", default-features = false }
fontdue = "=0.9.5"
global-hotkey = "=0.6.4"
image = { version = "=0.25.10", default-features = false, features = ["png"] }
notify-rust = { version = "=4.18.2", default-features = false, features = ["d"] }
rfd = { version = "=0.15.4", default-features = false, features = ["gtk3"] }
serde = { version = "=1.0.229", features = ["derive"] }
softbuffer = { version = "=0.4.8", default-features = false, features = ["x11"] }
time = { version = "=0.3.55", features = ["local-offset", "macros", "formatting"] }
toml = "=0.8.23"
tray-icon = "=0.19.3"
winit = { version = "=0.30.13", default-features = false, features = ["x11", "rwh_06"] }
