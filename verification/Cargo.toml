[package]
name = "finn_guidance"
version = "0.1.0"
edition = "2021"
publish = false

[dependencies]
crossbeam-channel = "0.5"
serde = { version = "1", features = ["derive"] }
serde_json = "1"
chrono = "0.4"
tracing = "0.1"
tracing-subscriber = "0.3"
nmea = "*"
serialport = { version = "4", default-features = false }
rusqlite = "*"
