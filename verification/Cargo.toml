[package]
name = "coox"
version = "0.1.0"
edition = "2021"
publish = false

[dependencies]
arboard = { version = "=3.7.0", default-features = false }
crossterm = { version = "=0.29.0", features = ["event-stream"] }
futures-util = "=0.3.34"
grep = "=0.4.1"
ignore = "=0.4.34"
image = { version = "=0.25.10", default-features = false, features = ["png", "jpeg", "gif", "webp"] }
libc = "=0.2.191"
pulldown-cmark = { version = "=0.13.6", default-features = false }
ratatui = { version = "=0.30.2", features = ["unstable-rendered-line-info"] }
ratatui-image = { version = "=11.1.0", default-features = false, features = ["crossterm"] }
schemars = "=1.2.3"
serde = { version = "=1.0.229", features = ["derive"] }
serde_json = "=1.0.154"
syntect = { version = "=5.3.0", default-features = false, features = ["default-fancy"] }
tokio = { version = "=1.54.1", features = ["full"] }
tui-overlay = "=0.1.2"
unicode-width = "=0.2.3"
vfs = { version = "=0.13.0", features = ["async-vfs"] }
windows-sys = { version = "=0.61.2", features = ["Win32_Foundation", "Win32_Security", "Win32_System_JobObjects", "Win32_System_Threading"] }
