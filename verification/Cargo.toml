[package]
name = "ronnie"
version = "0.1.0"
edition = "2021"
publish = false

[dependencies]
anyhow = "*"
chrono = "*"
directories = "*"
egui = "*"
eframe = { version = "*", default-features = false, features = ["glow", "x11"] }
libc = "*"
portable-pty = "*"
russh-sftp = "*"
serde = { version = "1", features = ["derive"] }
serde_json = "1"
tokio = { version = "1", features = ["rt-multi-thread", "process", "io-util", "sync", "time", "fs", "macros"] }
uuid = { version = "1", features = ["v4", "serde"] }
