[package]
name = "hybrid_mount"
version = "0.1.0"
edition = "2021"
publish = false

[dependencies]
anyhow = "*"
fastrand = "*"
libc = "*"
log = "*"
env_logger = "*"
android_logger = "*"
procfs = "*"
rustix = { version = "*", features = ["mount", "fs"] }
serde = { version = "*", features = ["derive"] }
serde_json = "*"
toml = "*"
walkdir = "*"
