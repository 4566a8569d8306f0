[package]
name = "minesweeper"
version = "0.1.0"
edition = "2021"
publish = false

[dependencies]
rand = "0.8"
windows = { version = "0.48", features = ["Foundation", "Foundation_Collections", "Foundation_Numerics", "Graphics", "System", "UI", "UI_Composition", "UI_Composition_Desktop", "Win32_Foundation", "Win32_Graphics_Gdi", "Win32_System_LibraryLoader", "Win32_System_WinRT", "Win32_System_WinRT_Composition", "Win32_UI_WindowsAndMessaging"] }
