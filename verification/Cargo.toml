[package]
name = "elm-win32"
version = "0.1.0"
edition = "2021"
publish = false

[dependencies]
taffy = "=0.15.1"
windows = { version = "=0.58.0", features = ["Win32_Foundation", "Win32_Graphics_Gdi", "Win32_UI_WindowsAndMessaging", "Win32_System_LibraryLoader", "Win32_UI_HiDpi", "Win32_UI_Controls"] }
