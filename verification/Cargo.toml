[package]
name = "mptrsz"
version = "0.1.0"
edition = "2021"
publish = false

[dependencies]
bitvec = "1"
thiserror = "2"
widestring = "1"
bpaf = { version = "0.9", features = ["derive"] }
windows-registry = "*"
rusty-duplication = "*"
windows = { version = "0.60", features = ["Win32_Foundation", "Win32_Graphics_Gdi", "Win32_UI_WindowsAndMessaging", "Win32_Graphics_Dxgi", "Win32_Graphics_Dxgi_Common"] }
