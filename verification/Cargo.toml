[package]
name = "circuit_telemetry"
version = "0.1.0"
edition = "2021"
publish = false

[dependencies]
chrono = { version = "0.4", default-features = false, features = ["clock", "std"] }
rusqlite = { version = "*", features = ["bundled"] }
serialport = { version = "4", default-features = false }
axum = "0.7"
tokio = { version = "1", features = ["rt-multi-thread", "net"] }
lcd_display = "*"
