[package]
name = "toolshot"
version = "0.1.0"
edition = "2021"
publish = false

[dependencies]
global-hotkey = "=0.9.0"
image = { version = "=0.25.10", default-features = false, features = ["png"] }
png = "=0.17.16"
serde = { version = "=1.0.229", features = ["derive"] }
serde_json = "=1.0.154"
arboard = "=3.7.0"
dirs = "=7.0.0"
fs2 = "=0.4.3"
auto-launch = "=0.6.0"
winit = "0.30"
tray-icon = "*"
libc = "0.2"
windows-sys = "*"
