[package]
name = "nxmproxy"
version = "0.1.0"
edition = "2021"
publish = false

[dependencies]
log = "0.4"
windows = { version = "0.61", features = ["Win32_Foundation", "Win32_Security", "Win32_System_Registry", "Win32_UI_Shell", "Win32_UI_WindowsAndMessaging"] }
