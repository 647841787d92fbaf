[package]
name = "bc250-dashboard"
version = "0.1.0"
edition = "2021"
publish = false

[dependencies]
anyhow = "1"
clap = { version = "4", features = ["derive"] }
env_logger = "*"
image = { version = "*", default-features = false, features = ["png"] }
log = "0.4"
minifb = "*"
serde = { version = "1", features = ["derive"] }
serialport = { version = "4", default-features = false }
thiserror = "*"
tiny-skia = "*"
toml = "*"
toml_edit = "*"
