[package]
name = "proxy_lib"
version = "0.1.0"
edition = "2021"
publish = false

[dependencies]
anyhow = "=1.0.104"
bytes = "=1.12.1"
eframe = { version = "=0.22.0", default-features = false, features = ["default_fonts", "glow", "persistence"] }
egui = "=0.22.0"
egui_dock = { version = "=0.6.3", features = ["serde"] }
flate2 = "=1.1.10"
flume = "=0.10.14"
serde = { version = "=1.0.229", features = ["derive"] }
time = "=0.3.55"
tokio = { version = "=1.54.1", features = ["io-util", "macros", "net", "rt-multi-thread", "signal", "sync"] }
tracing = "=0.1.44"
tracing-subscriber = "=0.3.23"

[dev-dependencies]
valence_protocol = { version = "=0.2.0-alpha.1", features = ["compression", "encryption"] }
