[package]
name = "compositor"
version = "0.1.0"
edition = "2021"
publish = false

[dependencies]
anyhow = "=1.0.104"
clap = { version = "=4.6.7", features = ["derive"] }
env_logger = "=0.11.11"
glib = "=0.20.12"
gstreamer = "=0.23.7"
gstreamer-base = "=0.23.6"
log = "=0.4.35"
once_cell = "=1.21.4"
parking_lot = "=0.12.5"
serde = { version = "=1.0.229", features = ["derive"] }
thiserror = "=1.0.69"
