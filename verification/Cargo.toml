[package]
name = "rustis"
version = "1.0.0"
edition = "2021"
publish = false

[dependencies]
regex = "1"
clap = { version = "4", features = ["cargo"] }
socket2 = { version = "0.5", features = ["all"] }
