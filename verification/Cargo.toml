[package]
name = "deepcopy"
version = "0.1.0"
edition = "2021"
publish = false

[dependencies]
clap = { version = "4", features = ["derive"] }
console = "*"
dialoguer = "*"
fs4 = "*"
indicatif = "*"
log = { version = "0.4", features = ["std"] }
tokio = { version = "1", features = ["rt-multi-thread", "macros", "sync", "time", "signal"] }
walkdir = "2"
