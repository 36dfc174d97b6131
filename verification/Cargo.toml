[package]
name = "graphql_service"
version = "0.1.0"
edition = "2021"
publish = false

[dependencies]
serde_json = "=1.0.154"
gqlmapi-rs = "=0.15.0"
windows = { version = "=0.52.0", features = ["implement", "Win32_Foundation", "Win32_Graphics_Gdi", "Win32_System_Com", "Win32_System_LibraryLoader", "Win32_System_Ole", "Win32_System_Variant", "Win32_UI_WindowsAndMessaging"] }
windows-implement = "=0.52.0"
windows-interface = "=0.52.0"
