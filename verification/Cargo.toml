[package]
name = "periodic_commands"
version = "0.1.0"
edition = "2021"
publish = false

[dependencies]
actix-web = "4"
clap = { version = "4", features = ["derive"] }
duration-string = { version = "*", features = ["serde"] }
log = "0.4"
prometheus-client = "0.22"
regex = "1"
serde = { version = "1", features = ["derive"] }
serde_yaml = "0.9"
shellexpand = "3"
simple_logger = "*"
tokio = { version = "1", features = ["rt-multi-thread", "process", "time"] }
