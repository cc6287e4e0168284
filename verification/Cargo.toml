[package]
name = "block_duplicator"
version = "0.1.0"
edition = "2021"
publish = false

[dependencies]
is_elevated = "0.1"
libc = "0.2"
windows-sys = { version = "0.59", features = ["Win32_Foundation", "Win32_System_IO", "Win32_UI_Shell", "Win32_UI_WindowsAndMessaging"] }
