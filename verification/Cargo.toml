[package]
name = "dsh_desktop"
version = "0.1.0"
edition = "2021"
publish = false

[dependencies]
libc = "0.2"
tauri = { version = "2", default-features = false, features = ["tray-icon", "wry"] }
thiserror = "2"
