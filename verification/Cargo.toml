[package]
name = "hmux"
version = "0.1.0"
edition = "2021"
publish = false

[dependencies]
vte = "0.15"
unicode-width = "0.2"
anyhow = "1"
portable-pty = "0.9"
serde = { version = "1", features = ["derive"] }
serde_json = "1"
windows-sys = { version = "0.60", features = ["Win32_Foundation", "Win32_Security", "Win32_Storage_FileSystem", "Win32_System_Console", "Win32_System_DataExchange", "Win32_System_Diagnostics_Debug", "Win32_System_Diagnostics_ToolHelp", "Win32_System_IO", "Win32_System_LibraryLoader", "Win32_System_Memory", "Win32_System_Ole", "Win32_System_Pipes", "Win32_System_Threading"] }
