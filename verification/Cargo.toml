[package]
name = "dsh_launcher"
version = "1.3.0"
edition = "2021"
publish = false

[dependencies]
png = "0.17"
serde = { version = "1", features = ["derive"] }
serde_json = { version = "1", features = ["preserve_order"] }
windows-registry = "0.5"
windows-sys = { version = "0.59", features = ["Win32_Foundation", "Win32_Security", "Win32_System_SystemInformation", "Win32_System_Threading", "Win32_UI_Shell", "Win32_UI_WindowsAndMessaging"] }
zip = { version = "2", default-features = false, features = ["deflate"] }
