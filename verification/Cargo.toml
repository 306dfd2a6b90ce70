[package]
name = "disk_cache"
version = "0.1.0"
edition = "2021"
publish = false

[dependencies]
dirs = "5"
rayon = "1"
serde = { version = "1", features = ["derive"] }
serde_json = "1"
sysinfo = "0.29"
walkdir = "2"
