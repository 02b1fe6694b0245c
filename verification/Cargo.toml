[package]
name = "obd_io"
version = "0.1.0"
edition = "2021"
publish = false

[dependencies]
chrono = { version = "0.4", features = ["serde"] }
serde = { version = "1", features = ["derive"] }
serde_json = "1"
serde_yaml = "0.9"
toml = "0.8"
thiserror = "1"
serialport = { version = "4", default-features = false }
libc = "0.2"
tracing = "0.1"
tracing-subscriber = { version = "0.3", features = ["env-filter"] }
clap = { version = "4", features = ["derive", "env"] }
anyhow = "1"
crossterm = "0.28"
ratatui = "0.29"
eframe = { version = "0.29", default-features = false, features = ["glow", "default_fonts", "x11"] }

[dev-dependencies]
tempfile = "3"
