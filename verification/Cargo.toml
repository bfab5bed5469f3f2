[package]
name = "tulok"
version = "0.1.0"
edition = "2021"
publish = false

[dependencies]
regex = "1"
serde = { version = "1", features = ["derive"] }
serde_yaml = "0.9"
tui = "0.19"
crossterm = "0.25"
chrono = "0.4"
task-hookrs = "*"
