[package]
name = "flashlight"
version = "0.1.0"
edition = "2021"
publish = false

[dependencies]
widestring = "=1.2.1"
chrono = "=0.4.45"
serde = { version = "=1.0.229", features = ["derive"] }
windows = { version = "=0.58.0", features = ["Win32_Foundation", "Win32_System_EventLog"] }
