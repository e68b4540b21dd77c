[package]
name = "dungeon"
version = "0.1.0"
edition = "2021"
publish = false

[dependencies]
rand = "*"
serde = { version = "*", features = ["derive"] }
serde_yaml = "*"
log = "*"
log4rs = "*"
tui = "0.19"
crossterm = "0.25"
