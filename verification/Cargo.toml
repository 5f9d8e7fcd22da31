[package]
name = "bluevein"
version = "0.1.0"
edition = "2021"
publish = false

[dependencies]
anyhow = "=1.0.104"
chrono = "=0.4.45"
ctrlc = "=3.5.2"
dbus = "=0.9.12"
env_logger = "=0.11.11"
fat32-raw = "=1.0.4"
hex = "=0.4.3"
inotify = "=0.11.5"
libc = "=0.2.191"
log = "=0.4.34"
nix = { version = "=0.31.3", features = ["user"] }
once_cell = "=1.21.4"
serde = { version = "=1.0.229", features = ["derive"] }
serde_json = "=1.0.154"
tokio = { version = "=1.54.1", features = ["rt-multi-thread"] }
windows-service = "=0.8.1"
windows-sys = { version = "=0.61.2", features = ["Win32_Foundation", "Win32_System_Registry"] }
winreg = "=0.56.0"
