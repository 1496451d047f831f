[package]
name = "rustylines"
version = "1.0.0"
edition = "2021"
publish = false

[dependencies]
clap = "2"
crossterm = "0.25"
git2 = { version = "*", default-features = false }
thiserror = "1"
tui = "0.19"
