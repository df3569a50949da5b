[package]
name = "flashpaste"
version = "0.1.0"
edition = "2021"
publish = false

[dependencies]
anyhow = "1"
inotify = "*"
nix = { version = "*", features = ["user"] }
tokio = { version = "1", features = ["rt", "process", "io-util", "time", "fs"] }
tracing = "*"
