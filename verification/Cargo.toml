[package]
name = "resident_engine"
version = "0.1.0"
edition = "2021"
publish = false

[dependencies]
shipyard = "*"
puffin = "0.19"
wgpu = "*"
winit = "0.30"
w-gui = "*"
clap = { version = "4", features = ["derive"] }
anyhow = "1"
thiserror = "*"
log = "0.4"
env_logger = "*"
pollster = "*"
