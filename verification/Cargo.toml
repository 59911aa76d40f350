[package]
name = "leap"
version = "0.1.0"
edition = "2021"
publish = false

[dependencies]
ropey = "1"
nucleo-matcher = "0.3"
ignore = "0.4"
crossterm = "0.29"
rusqlite = { version = "*", features = ["bundled"] }
dirs = "*"
anyhow = "1"
clap = { version = "4", features = ["derive"] }
