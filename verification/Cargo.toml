[package]
name = "fff-tui"
version = "0.1.0"
edition = "2021"
publish = false

[dependencies]
anyhow = "1"
clap = { version = "4", features = ["derive", "env"] }
crossterm = "*"
dirs = "6"
fff-search = "0.8"
git2 = "0.20"
neo_frizbee = "0.10"
sha1 = "0.10"
