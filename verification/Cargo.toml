[package]
name = "gpu_fanctl"
version = "0.1.0"
edition = "2021"
publish = false

[dependencies]
anyhow = "1"
ctrlc = "3"
humantime = "2"
libc = "0.2"
libloading = "0.8"
nvml-wrapper = "*"
serde = { version = "1", features = ["derive"] }
serde_json = "1"
windows-service = "0.8"
