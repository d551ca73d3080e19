[package]
name = "meteo"
version = "0.1.0"
edition = "2021"
publish = false

[dependencies]
chrono = "0.4"
dirs = "5"
reqwest = { version = "0.12", default-features = false, features = ["blocking", "json", "rustls-tls"] }
serde = { version = "1", features = ["derive"] }
terminal_size = "0.4"
toml = "0.8"
windows-sys = { version = "0.59", features = ["Win32_System_Console", "Win32_Foundation"] }
