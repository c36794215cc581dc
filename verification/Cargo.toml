[package]
name = "peripheral_ledger"
version = "0.1.0"
edition = "2021"
publish = false

[dependencies]
sha2 = "0.10"
serde = { version = "1", features = ["derive"] }
serde_json = "1"
csv = "1"
rusqlite = { version = "*", features = ["bundled"] }
thiserror = "2"
anyhow = "1"
windows-service = "*"
windows = { version = "*", features = ["Win32_Foundation", "Win32_System_EventLog", "Win32_System_LibraryLoader", "Win32_System_Threading", "Win32_UI_WindowsAndMessaging"] }
