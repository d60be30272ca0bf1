[package]
name = "rax_nmea"
version = "0.1.0"
edition = "2021"
publish = false

[dependencies]
chrono = "0.4"
lru = "*"
miette = "7"
serde = { version = "1", features = ["derive"] }
strum = { version = "*", features = ["derive"] }
serialport = { version = "4", default-features = false }
tracing = "0.1"
tracing-subscriber = "0.3"
