[package]
name = "factorio_exporter"
version = "0.1.0"
edition = "2021"
publish = false

[dependencies]
argh = "*"
lazy_static = "*"
prometheus_exporter = "*"
rcon-client = "*"
tokio = { version = "*", features = ["rt-multi-thread", "macros", "signal", "time"] }
