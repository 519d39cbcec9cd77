[package]
name = "soundboard"
version = "0.1.0"
edition = "2021"
publish = false

[dependencies]
anyhow = "1"
clap = { version = "4", features = ["derive"] }
clearscreen = "3"
ctrlc = "3"
global-hotkey = "0.5"
kira = { version = "0.8", default-features = false, features = ["mp3", "ogg", "flac", "wav"] }
rand = "0.8"
winit = { version = "0.29", default-features = false, features = ["x11", "rwh_06"] }
