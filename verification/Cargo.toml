[package]
name = "cpu_power_manager"
version = "0.1.0"
edition = "2021"
publish = false

[dependencies]
anyhow = "1"
clap = { version = "4", features = ["derive"] }
env_logger = "*"
gtk4 = "*"
log = "0.4"
serde = { version = "1", features = ["derive"] }
