[package]
name = "memedit"
version = "0.1.0"
edition = "2021"
publish = false

[dependencies]
windows = { version = "=0.54.0", features = ["Win32_Foundation", "Win32_Security", "Win32_System_Diagnostics_Debug", "Win32_System_Diagnostics_ToolHelp", "Win32_System_LibraryLoader", "Win32_System_Memory", "Win32_System_SystemInformation", "Win32_System_SystemServices", "Win32_System_Threading", "Win32_UI_WindowsAndMessaging"] }
serde = { version = "=1.0.229", features = ["derive"] }
toml = "=0.8.23"
tracing-subscriber = "=0.3.23"
once_cell = "=1.21.4"
log = "=0.4.34"
hudhook = "=0.6.5"
imgui = "=0.11.0"
anyhow = "=1.0.104"
log-panics = "=2.1.0"
