[package]
name = "timers"
version = "0.1.0"
edition = "2021"
publish = false

[dependencies]
figlet-rs = "*"
notify-rust = "*"
tokio = { version = "*", features = ["macros", "rt", "time"] }
