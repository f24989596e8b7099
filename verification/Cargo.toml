[package]
name = "paint_layers"
version = "0.1.0"
edition = "2021"
publish = false

[dependencies]
epaint = { version = "=0.37.0", default-features = false }
bytemuck = { version = "=1.25.2", features = ["derive"] }
home = "=0.5.12"
log = "=0.4.34"
mint = "=0.5.9"
profiling = "=1.0.18"
ron = "=0.12.2"
serde = { version = "=1.0.229", features = ["derive"] }
windows-sys = { version = "=0.61.2", features = ["Win32_Foundation", "Win32_System_Com", "Win32_UI_Shell"] }
